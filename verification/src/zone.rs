//! A zone authority: one record store together with the zone's origin and
//! kind, answering queries under the origin, including authoritative
//! negative answers.

use vstd::prelude::*;

use crate::ip::Ipv4;
use crate::name::valid_fqdn;
use crate::name::lower_seq;
use crate::name::in_zone;
use crate::name::check_fqdn;
use crate::name::canonical_name;
use crate::name::canonical_chars;
use crate::name::name_in_zone;
use crate::name::lemma_lower_preserves_valid;
use crate::name::lemma_lower_idempotent;
use crate::store::RecordStore;
use crate::store::StoredRecord;
use crate::store::RecordView;
use crate::ip::ipv4_text;

verus! {

/// The kind of a zone; this core serves primary (authoritative) zones only.
#[derive(Clone, Copy, PartialEq, Eq, Structural, Debug)]
pub enum ZoneKind {
    Primary,
}

/// The kind of an inbound query. Address queries under class Internet are
/// the only kind this core stores records for; every other type or class
/// maps to `Other` and draws an authoritative negative answer.
#[derive(Clone, Copy, PartialEq, Eq, Structural, Debug)]
pub enum QueryKind {
    Address,
    Other,
}

/// A zone authority's reply to one query.
#[derive(Clone, Copy, PartialEq, Eq, Structural, Debug)]
pub enum ZoneAnswer {
    /// The queried name does not lie under this zone's origin.
    NotAuthoritative,
    /// The record exists: its address and its stored ttl, verbatim.
    Positive(Ipv4, u32),
    /// The zone owns the name but holds no such record: an authoritative
    /// negative answer.
    NoRecord,
}

/// One zone: an origin name, a kind, and the records under the origin.
pub struct ZoneAuthority {
    origin: Vec<char>,
    kind: ZoneKind,
    store: RecordStore,
}

impl ZoneAuthority {
    /// The zone's origin, in canonical form.
    pub closed spec fn origin_spec(self) -> Seq<char> {
        self.origin@
    }

    /// The zone's kind.
    pub closed spec fn kind_spec(self) -> ZoneKind {
        self.kind
    }

    /// The records, keyed by canonical name.
    pub closed spec fn records(self) -> Map<Seq<char>, RecordView> {
        self.store@
    }

    /// The record images in insertion order.
    pub closed spec fn records_seq(self) -> Seq<RecordView> {
        self.store.records_seq()
    }

    /// Well-formed: the origin is a valid canonical name, the store is
    /// well-formed, and every stored key lies under the origin.
    pub closed spec fn wf(self) -> bool {
        &&& valid_fqdn(self.origin@)
        &&& self.origin@ == lower_seq(self.origin@)
        &&& self.store.wf()
        &&& forall|k: Seq<char>|
            self.store@.contains_key(k) ==> in_zone(k, self.origin@)
    }

    /// Builds an empty zone for a valid origin name.
    pub fn new(origin: &str, kind: ZoneKind) -> (r: Option<ZoneAuthority>)
        ensures
            match r {
                Some(z) => valid_fqdn(origin@) && z.wf() && z.origin_spec() == lower_seq(origin@)
                    && z.kind_spec() == kind && z.records() == Map::<Seq<char>, RecordView>::empty()
                    && z.records_seq() == Seq::<RecordView>::empty(),
                None => !valid_fqdn(origin@),
            },
    {
        if check_fqdn(origin) {
            let canon = canonical_name(origin);
            proof {
                lemma_lower_preserves_valid(origin@);
                lemma_lower_idempotent(origin@);
            }
            Some(ZoneAuthority { origin: canon, kind, store: RecordStore::new() })
        } else {
            None
        }
    }

    /// Decides whether a canonical name lies under this zone's origin.
    pub fn origin_matches(&self, name: &Vec<char>) -> (b: bool)
        ensures
            b == in_zone(name@, self.origin_spec()),
    {
        name_in_zone(name, &self.origin)
    }

    /// The length of the zone's origin name.
    pub fn origin_len(&self) -> (r: usize)
        ensures
            r == self.origin_spec().len(),
    {
        self.origin.len()
    }

    /// What a query answer must be, as a function of the zone's state: not
    /// authoritative outside the origin; the stored address and ttl for a
    /// present address record; an authoritative negative otherwise.
    pub open spec fn answer_spec(self, q: Seq<char>, kind: QueryKind) -> ZoneAnswer {
        let ql = lower_seq(q);
        if !in_zone(ql, self.origin_spec()) {
            ZoneAnswer::NotAuthoritative
        } else if kind != QueryKind::Address {
            ZoneAnswer::NoRecord
        } else if self.records().contains_key(ql) {
            ZoneAnswer::Positive(self.records()[ql].value, self.records()[ql].ttl)
        } else {
            ZoneAnswer::NoRecord
        }
    }

    /// Answers one query: canonicalizes the name, checks that it lies under
    /// the origin, and looks the record up.
    pub fn answer(&self, qname: &Vec<char>, kind: QueryKind) -> (r: ZoneAnswer)
        requires
            self.wf(),
        ensures
            r == self.answer_spec(qname@, kind),
    {
        let canon = canonical_chars(qname);
        if !name_in_zone(&canon, &self.origin) {
            return ZoneAnswer::NotAuthoritative;
        }
        match kind {
            QueryKind::Other => ZoneAnswer::NoRecord,
            QueryKind::Address => match self.store.lookup(&canon) {
                Some((value, ttl)) => ZoneAnswer::Positive(value, ttl),
                None => ZoneAnswer::NoRecord,
            },
        }
    }

    /// Inserts or replaces the address record for a name under this zone.
    pub fn upsert_record(&mut self, name: &str, value: Ipv4, ttl: u32)
        requires
            old(self).wf(),
            valid_fqdn(name@),
            in_zone(lower_seq(name@), old(self).origin_spec()),
        ensures
            final(self).wf(),
            final(self).origin_spec() == old(self).origin_spec(),
            final(self).kind_spec() == old(self).kind_spec(),
            final(self).records() == old(self).records().insert(
                lower_seq(name@),
                (RecordView { name: name@, value: value, ttl: ttl }),
            ),
            !old(self).records().contains_key(lower_seq(name@)) ==> final(self).records_seq()
                == old(self).records_seq().push(
                (RecordView { name: name@, value: value, ttl: ttl }),
            ),
            old(self).records().contains_key(lower_seq(name@)) ==> final(self).records_seq().len()
                == old(self).records_seq().len(),
    {
        let canon = canonical_name(name);
        let rec = StoredRecord { name: name.to_owned(), key: canon, value, ttl };
        self.store.upsert(rec);
        proof {
            assert forall|k: Seq<char>| self.store@.contains_key(k) implies in_zone(
                k,
                self.origin@,
            ) by {
                if k != lower_seq(name@) {
                    assert(old(self).store@.contains_key(k));
                }
            }
        }
    }

    /// Removes the address record for a name; removing an absent record
    /// changes nothing and is not an error.
    pub fn delete_record(&mut self, name: &str)
        requires
            old(self).wf(),
        ensures
            final(self).wf(),
            final(self).origin_spec() == old(self).origin_spec(),
            final(self).kind_spec() == old(self).kind_spec(),
            final(self).records() == old(self).records().remove(lower_seq(name@)),
            !old(self).records().contains_key(lower_seq(name@)) ==> *final(self) == *old(self),
    {
        let canon = canonical_name(name);
        self.store.delete(&canon);
        proof {
            assert forall|k: Seq<char>| self.store@.contains_key(k) implies in_zone(
                k,
                self.origin@,
            ) by {
                assert(old(self).store@.contains_key(k));
            }
        }
    }

    /// A snapshot of the zone's records: display name, dotted-quad value,
    /// and ttl for each.
    pub fn snapshot(&self) -> (r: Vec<(String, String, u32)>)
        requires
            self.wf(),
        ensures
            r@.len() == self.records_seq().len(),
            forall|i: int|
                0 <= i < r@.len() ==> (#[trigger] r@[i]).0@ == self.records_seq()[i].name && r@[
                    i
                ].1@ == ipv4_text(self.records_seq()[i].value) && r@[i].2
                    == self.records_seq()[i].ttl,
    {
        self.store.snapshot()
    }
}

} // verus!
