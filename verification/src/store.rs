//! The record store: a keyed collection of address records for one zone,
//! with upsert, idempotent delete, point lookup and enumeration.
//!
//! Records are keyed by the canonical (lowercase) form of their name; for a
//! given key the store holds at most one record. The store itself does no
//! locking: writers are expected to hold exclusive access, which the
//! exclusive borrow in the mutating operations models.

use vstd::prelude::*;

use crate::ip::Ipv4;
use crate::ip::ipv4_text;
use crate::ip::format_ipv4;
use crate::name::valid_fqdn;
use crate::name::lower_seq;

verus! {

/// One stored address record, with the name as originally supplied and its
/// canonical lowercase form as the key.
pub struct StoredRecord {
    pub name: String,
    pub key: Vec<char>,
    pub value: Ipv4,
    pub ttl: u32,
}

/// Spec-level image of one record: display name, address and ttl.
pub struct RecordView {
    pub name: Seq<char>,
    pub value: Ipv4,
    pub ttl: u32,
}

impl View for StoredRecord {
    type V = RecordView;

    open spec fn view(&self) -> RecordView {
        RecordView { name: self.name@, value: self.value, ttl: self.ttl }
    }
}

impl StoredRecord {
    /// The record's name is well-formed and its key is the canonical form.
    pub open spec fn wf(self) -> bool {
        &&& valid_fqdn(self.name@)
        &&& self.key@ == lower_seq(self.name@)
    }
}

/// The mapping that a sequence of records denotes: key to record image,
/// later entries overriding earlier ones.
pub open spec fn records_map(s: Seq<StoredRecord>) -> Map<Seq<char>, RecordView>
    decreases s.len(),
{
    if s.len() == 0 {
        Map::empty()
    } else {
        records_map(s.drop_last()).insert(s.last().key@, s.last()@)
    }
}

/// A key is in the mapping exactly when some entry carries it.
pub proof fn lemma_records_map_contains(s: Seq<StoredRecord>, k: Seq<char>)
    ensures
        records_map(s).contains_key(k) <==> exists|i: int| 0 <= i < s.len() && (#[trigger] s[i]).key@
            == k,
    decreases s.len(),
{
    if s.len() > 0 {
        let sd = s.drop_last();
        lemma_records_map_contains(sd, k);
        if records_map(s).contains_key(k) {
            if s.last().key@ == k {
                assert(s[s.len() - 1].key@ == k);
            } else {
                let i = choose|i: int| 0 <= i < sd.len() && (#[trigger] sd[i]).key@ == k;
                assert(s[i].key@ == k);
            }
        }
        if exists|i: int| 0 <= i < s.len() && (#[trigger] s[i]).key@ == k {
            let i = choose|i: int| 0 <= i < s.len() && (#[trigger] s[i]).key@ == k;
            if i < s.len() - 1 {
                assert(sd[i].key@ == k);
            }
        }
    }
}

/// With distinct keys, the mapping sends each entry's key to that entry.
pub proof fn lemma_records_map_index(s: Seq<StoredRecord>, i: int)
    requires
        0 <= i < s.len(),
        forall|p: int, q: int| 0 <= p < q < s.len() ==> (#[trigger] s[p]).key@ != (
        #[trigger] s[q]).key@,
    ensures
        records_map(s).contains_key(s[i].key@),
        records_map(s)[s[i].key@] == s[i]@,
    decreases s.len(),
{
    let sd = s.drop_last();
    if i < s.len() - 1 {
        lemma_records_map_index(sd, i);
        assert(sd[i] == s[i]);
        assert(s[i].key@ != s[s.len() - 1].key@);
    }
}

/// Appending a fresh entry inserts its image.
pub proof fn lemma_records_map_push(s: Seq<StoredRecord>, e: StoredRecord)
    ensures
        records_map(s.push(e)) == records_map(s).insert(e.key@, e@),
{
    assert(s.push(e).drop_last() =~= s);
    assert(s.push(e).last() == e);
}

/// Replacing the entry that carries a key overwrites its image.
pub proof fn lemma_records_map_update(s: Seq<StoredRecord>, i: int, e: StoredRecord)
    requires
        0 <= i < s.len(),
        forall|p: int, q: int| 0 <= p < q < s.len() ==> (#[trigger] s[p]).key@ != (
        #[trigger] s[q]).key@,
        e.key@ == s[i].key@,
    ensures
        records_map(s.update(i, e)) == records_map(s).insert(e.key@, e@),
    decreases s.len(),
{
    let su = s.update(i, e);
    if i == s.len() - 1 {
        assert(su.drop_last() =~= s.drop_last());
        assert(su.last() == e);
        assert(records_map(su) =~= records_map(s).insert(e.key@, e@));
    } else {
        lemma_records_map_update(s.drop_last(), i, e);
        assert(su.drop_last() =~= s.drop_last().update(i, e));
        assert(su.last() == s.last());
        assert(s[i].key@ != s[s.len() - 1].key@);
        assert(records_map(su) =~= records_map(s).insert(e.key@, e@));
    }
}

/// Removing the entry that carries a key removes its image.
pub proof fn lemma_records_map_remove(s: Seq<StoredRecord>, i: int)
    requires
        0 <= i < s.len(),
        forall|p: int, q: int| 0 <= p < q < s.len() ==> (#[trigger] s[p]).key@ != (
        #[trigger] s[q]).key@,
    ensures
        records_map(s.remove(i)) == records_map(s).remove(s[i].key@),
    decreases s.len(),
{
    if i == s.len() - 1 {
        assert(s.remove(i) =~= s.drop_last());
        lemma_records_map_contains(s.drop_last(), s[i].key@);
        assert forall|p: int| 0 <= p < s.drop_last().len() implies (#[trigger] s.drop_last()[p]).key@
            != s[i].key@ by {
            assert(s[p].key@ != s[s.len() - 1].key@);
        }
        assert(records_map(s.remove(i)) =~= records_map(s).remove(s[i].key@));
    } else {
        lemma_records_map_remove(s.drop_last(), i);
        assert(s.remove(i).drop_last() =~= s.drop_last().remove(i));
        assert(s.remove(i).last() == s.last());
        assert(s.drop_last()[i] == s[i]);
        assert(s[i].key@ != s[s.len() - 1].key@);
        assert(records_map(s.remove(i)) =~= records_map(s).remove(s[i].key@));
    }
}

/// The record store for one zone.
pub struct RecordStore {
    entries: Vec<StoredRecord>,
}

impl View for RecordStore {
    type V = Map<Seq<char>, RecordView>;

    closed spec fn view(&self) -> Map<Seq<char>, RecordView> {
        records_map(self.entries@)
    }
}

impl RecordStore {
    /// The entries as a sequence, in insertion order.
    pub closed spec fn entries_seq(self) -> Seq<StoredRecord> {
        self.entries@
    }

    /// The record images in insertion order.
    pub open spec fn records_seq(self) -> Seq<RecordView> {
        self.entries_seq().map_values(|e: StoredRecord| e@)
    }

    /// Well-formed: every entry well-formed, keys pairwise distinct.
    pub open spec fn wf(self) -> bool {
        &&& forall|i: int|
            0 <= i < self.entries_seq().len() ==> (#[trigger] self.entries_seq()[i]).wf()
        &&& forall|p: int, q: int|
            0 <= p < q < self.entries_seq().len() ==> (#[trigger] self.entries_seq()[p]).key@ != (
            #[trigger] self.entries_seq()[q]).key@
    }

    /// An empty store.
    pub fn new() -> (r: RecordStore)
        ensures
            r.wf(),
            r@ == Map::<Seq<char>, RecordView>::empty(),
            r.records_seq() == Seq::<RecordView>::empty(),
    {
        let r = RecordStore { entries: Vec::new() };
        proof {
            assert(r.records_seq() =~= Seq::<RecordView>::empty());
        }
        r
    }

    /// Compares two character vectors for equality.
    fn eq_chars(a: &Vec<char>, b: &Vec<char>) -> (r: bool)
        ensures
            r == (a@ == b@),
    {
        if a.len() != b.len() {
            return false;
        }
        let mut i: usize = 0;
        while i < a.len()
            invariant
                i <= a.len(),
                a@.len() == b@.len(),
                forall|j: int| 0 <= j < i ==> a@[j] == b@[j],
            decreases a.len() - i,
        {
            if a[i] != b[i] {
                return false;
            }
            i += 1;
        }
        proof {
            assert(a@ =~= b@);
        }
        true
    }

    /// Index of the entry carrying a key, if any.
    fn find_index(&self, key: &Vec<char>) -> (r: Option<usize>)
        ensures
            match r {
                Some(i) => i < self.entries@.len() && self.entries@[i as int].key@ == key@,
                None => forall|i: int|
                    0 <= i < self.entries@.len() ==> (#[trigger] self.entries@[i]).key@ != key@,
            },
    {
        let mut i: usize = 0;
        while i < self.entries.len()
            invariant
                i <= self.entries@.len(),
                forall|j: int| 0 <= j < i ==> (#[trigger] self.entries@[j]).key@ != key@,
            decreases self.entries@.len() - i,
        {
            if Self::eq_chars(&self.entries[i].key, key) {
                return Some(i);
            }
            i += 1;
        }
        None
    }

    /// Inserts or replaces the record at its key.
    pub fn upsert(&mut self, rec: StoredRecord)
        requires
            old(self).wf(),
            rec.wf(),
        ensures
            final(self).wf(),
            final(self)@ == old(self)@.insert(rec.key@, rec@),
            !old(self)@.contains_key(rec.key@) ==> final(self).records_seq() == old(
                self,
            ).records_seq().push(rec@),
            old(self)@.contains_key(rec.key@) ==> final(self).records_seq().len() == old(
                self,
            ).records_seq().len(),
    {
        let ghost s0 = self.entries@;
        match self.find_index(&rec.key) {
            Some(i) => {
                proof {
                    assert(self.entries_seq() == s0);
                    lemma_records_map_update(s0, i as int, rec);
                    lemma_records_map_contains(s0, rec.key@);
                    assert((s0[i as int]).key@ == rec.key@);
                    assert(old(self)@.contains_key(rec.key@));
                }
                self.entries.set(i, rec);
                proof {
                    assert(self.entries@ == s0.update(i as int, rec));
                    assert forall|p: int| 0 <= p < self.entries@.len() implies (
                    #[trigger] self.entries@[p]).wf() by {
                        if p != i {
                            assert(self.entries@[p] == s0[p]);
                        }
                    }
                    assert forall|p: int, q: int| 0 <= p < q < self.entries@.len() implies (
                    #[trigger] self.entries@[p]).key@ != (#[trigger] self.entries@[q]).key@ by {
                        assert(self.entries@[p].key@ == s0[p].key@);
                        assert(self.entries@[q].key@ == s0[q].key@);
                    }
                }
            },
            None => {
                proof {
                    assert(self.entries_seq() == s0);
                    lemma_records_map_push(s0, rec);
                    lemma_records_map_contains(s0, rec.key@);
                }
                self.entries.push(rec);
                proof {
                    assert(self.entries@ == s0.push(rec));
                    assert(self.records_seq() =~= s0.map_values(|e: StoredRecord| e@).push(rec@));
                    assert forall|p: int| 0 <= p < self.entries@.len() implies (
                    #[trigger] self.entries@[p]).wf() by {
                        if p < s0.len() {
                            assert(self.entries@[p] == s0[p]);
                        }
                    }
                    assert forall|p: int, q: int| 0 <= p < q < self.entries@.len() implies (
                    #[trigger] self.entries@[p]).key@ != (#[trigger] self.entries@[q]).key@ by {
                        if q < s0.len() {
                            assert(self.entries@[p].key@ == s0[p].key@);
                            assert(self.entries@[q].key@ == s0[q].key@);
                        } else {
                            assert(self.entries@[q] == rec);
                            assert(self.entries@[p] == s0[p]);
                        }
                    }
                }
            },
        }
    }

    /// Removes the record at a key; removing an absent key changes nothing.
    pub fn delete(&mut self, key: &Vec<char>)
        requires
            old(self).wf(),
        ensures
            final(self).wf(),
            final(self)@ == old(self)@.remove(key@),
            !old(self)@.contains_key(key@) ==> *final(self) == *old(self),
    {
        let ghost s0 = self.entries@;
        match self.find_index(key) {
            Some(i) => {
                proof {
                    assert(self.entries_seq() == s0);
                    lemma_records_map_remove(s0, i as int);
                    lemma_records_map_contains(s0, key@);
                    assert((s0[i as int]).key@ == key@);
                    assert(old(self)@.contains_key(key@));
                }
                self.entries.remove(i);
                proof {
                    assert(self.entries@ == s0.remove(i as int));
                    assert forall|p: int| 0 <= p < self.entries@.len() implies (
                    #[trigger] self.entries@[p]).wf() by {
                        if p < i {
                            assert(self.entries@[p] == s0[p]);
                        } else {
                            assert(self.entries@[p] == s0[p + 1]);
                        }
                    }
                    assert forall|p: int, q: int| 0 <= p < q < self.entries@.len() implies (
                    #[trigger] self.entries@[p]).key@ != (#[trigger] self.entries@[q]).key@ by {
                        let p0: int = if p < i { p } else { p + 1 };
                        let q0: int = if q < i { q } else { q + 1 };
                        assert(self.entries@[p] == s0[p0]);
                        assert(self.entries@[q] == s0[q0]);
                        assert(s0[p0].key@ != s0[q0].key@);
                    }
                }
            },
            None => {
                proof {
                    assert(self.entries_seq() == s0);
                    lemma_records_map_contains(s0, key@);
                    assert(!self@.contains_key(key@));
                    assert(self@ =~= self@.remove(key@));
                }
            },
        }
    }

    /// The record at a key, if present.
    pub fn lookup(&self, key: &Vec<char>) -> (r: Option<(Ipv4, u32)>)
        requires
            self.wf(),
        ensures
            match r {
                Some(p) => self@.contains_key(key@) && self@[key@].value == p.0 && self@[key@].ttl
                    == p.1,
                None => !self@.contains_key(key@),
            },
    {
        match self.find_index(key) {
            Some(i) => {
                proof {
                    assert forall|p: int, q: int| 0 <= p < q < self.entries@.len() implies (
                    #[trigger] self.entries@[p]).key@ != (#[trigger] self.entries@[q]).key@ by {
                        assert(self.entries_seq()[p] == self.entries@[p]);
                        assert(self.entries_seq()[q] == self.entries@[q]);
                    }
                    lemma_records_map_index(self.entries@, i as int);
                }
                let e = &self.entries[i];
                Some((e.value, e.ttl))
            },
            None => {
                proof {
                    lemma_records_map_contains(self.entries@, key@);
                }
                None
            },
        }
    }

    /// A snapshot of all records: display name, dotted-quad value, ttl.
    pub fn snapshot(&self) -> (r: Vec<(String, String, u32)>)
        requires
            self.wf(),
        ensures
            r@.len() == self.records_seq().len(),
            forall|i: int|
                0 <= i < r@.len() ==> (#[trigger] r@[i]).0@ == self.records_seq()[i].name && r@[
                    i
                ].1@ == ipv4_text(self.records_seq()[i].value) && r@[i].2
                    == self.records_seq()[i].ttl,
    {
        let mut r: Vec<(String, String, u32)> = Vec::new();
        let mut i: usize = 0;
        while i < self.entries.len()
            invariant
                i <= self.entries@.len(),
                r@.len() == i,
                forall|j: int|
                    0 <= j < i ==> (#[trigger] r@[j]).0@ == self.records_seq()[j].name && r@[
                        j
                    ].1@ == ipv4_text(self.records_seq()[j].value) && r@[j].2
                        == self.records_seq()[j].ttl,
            decreases self.entries@.len() - i,
        {
            let e = &self.entries[i];
            let name = e.name.clone();
            let value = format_ipv4(&e.value);
            r.push((name, value, e.ttl));
            i += 1;
        }
        r
    }

    /// Every image in the sequence of records is the mapping's image of its
    /// key, and the mapping holds no other keys.
    pub proof fn lemma_seq_matches_map(self)
        requires
            self.wf(),
        ensures
            forall|i: int|
                0 <= i < self.records_seq().len() ==> self@.contains_key(
                    lower_seq(#[trigger] self.records_seq()[i].name),
                ) && self@[lower_seq(self.records_seq()[i].name)] == self.records_seq()[i],
            forall|k: Seq<char>|
                self@.contains_key(k) ==> exists|i: int|
                    0 <= i < self.records_seq().len() && lower_seq(
                        #[trigger] self.records_seq()[i].name,
                    ) == k,
    {
        assert forall|i: int| 0 <= i < self.records_seq().len() implies self@.contains_key(
            lower_seq(#[trigger] self.records_seq()[i].name),
        ) && self@[lower_seq(self.records_seq()[i].name)] == self.records_seq()[i] by {
            lemma_records_map_index(self.entries_seq(), i);
            assert(self.entries_seq()[i].key@ == lower_seq(self.records_seq()[i].name));
        }
        assert forall|k: Seq<char>| self@.contains_key(k) implies exists|i: int|
            0 <= i < self.records_seq().len() && lower_seq(#[trigger] self.records_seq()[i].name)
                == k by {
            lemma_records_map_contains(self.entries_seq(), k);
            let i = choose|i: int|
                0 <= i < self.entries_seq().len() && (#[trigger] self.entries_seq()[i]).key@ == k;
            assert(lower_seq(self.records_seq()[i].name) == k);
        }
    }
}

} // verus!
