//! The catalog: registered zones, longest-suffix routing of a query name
//! to the owning zone, and the read and write entry points over the whole
//! record state.

use vstd::prelude::*;

use crate::ip::Ipv4;
use crate::name::valid_fqdn;
use crate::name::lower_seq;
use crate::name::in_zone;
use crate::name::canonical_name;
use crate::store::RecordView;
use crate::zone::ZoneAuthority;
use crate::zone::ZoneAnswer;
use crate::zone::QueryKind;

verus! {

/// The outcome of one query against the catalog.
#[derive(Clone, Copy, PartialEq, Eq, Structural, Debug)]
pub enum QueryOutcome {
    /// No registered zone owns the queried name.
    Refused,
    /// A positive answer: the stored address and ttl, verbatim.
    Answer(Ipv4, u32),
    /// The owning zone holds no such record: an authoritative negative.
    NoRecord,
}

/// `post` is `pre` with at most the records of zone `i` changed: same
/// zones elsewhere, same origin and kind at `i`.
pub open spec fn zones_updated_at(
    pre: Seq<ZoneAuthority>,
    post: Seq<ZoneAuthority>,
    i: int,
) -> bool {
    &&& post.len() == pre.len()
    &&& forall|j: int| 0 <= j < pre.len() && j != i ==> #[trigger] post[j] == pre[j]
    &&& post[i].origin_spec() == pre[i].origin_spec()
    &&& post[i].kind_spec() == pre[i].kind_spec()
}

/// Index of the zone whose origin is the longest suffix match for `q`
/// among `zs`, preferring the earliest such zone on equal length.
pub open spec fn best_in(zs: Seq<ZoneAuthority>, q: Seq<char>) -> Option<int>
    decreases zs.len(),
{
    if zs.len() == 0 {
        Option::None
    } else {
        let l = zs.len() - 1;
        let rest = best_in(zs.drop_last(), q);
        if in_zone(q, zs[l].origin_spec()) {
            match rest {
                Option::Some(i) => if zs[i].origin_spec().len() >= zs[l].origin_spec().len() {
                    Option::Some(i)
                } else {
                    Option::Some(l)
                },
                Option::None => Option::Some(l),
            }
        } else {
            rest
        }
    }
}

/// The selected zone owns the name and no owning zone has a longer origin;
/// when none is selected, no zone owns the name.
pub proof fn lemma_best_in_props(zs: Seq<ZoneAuthority>, q: Seq<char>)
    ensures
        match best_in(zs, q) {
            Option::Some(i) => 0 <= i < zs.len() && in_zone(q, zs[i].origin_spec()) && forall|
                j: int,
            |
                0 <= j < zs.len() && in_zone(q, (#[trigger] zs[j]).origin_spec())
                    ==> zs[j].origin_spec().len() <= zs[i].origin_spec().len(),
            Option::None => forall|j: int|
                0 <= j < zs.len() ==> !in_zone(q, (#[trigger] zs[j]).origin_spec()),
        },
    decreases zs.len(),
{
    if zs.len() > 0 {
        let sd = zs.drop_last();
        let l = zs.len() - 1;
        lemma_best_in_props(sd, q);
        assert(forall|j: int| 0 <= j < l ==> #[trigger] sd[j] == zs[j]);
        match best_in(zs, q) {
            Option::Some(i) => {
                assert forall|j: int|
                    0 <= j < zs.len() && in_zone(q, (#[trigger] zs[j]).origin_spec()) implies zs[
                    j
                ].origin_spec().len() <= zs[i].origin_spec().len() by {
                    if j < l {
                        assert(sd[j] == zs[j]);
                        match best_in(sd, q) {
                            Option::Some(b) => {
                                assert(sd[j].origin_spec().len() <= sd[b].origin_spec().len());
                            },
                            Option::None => {
                                assert(!in_zone(q, sd[j].origin_spec()));
                            },
                        }
                    }
                }
            },
            Option::None => {
                assert forall|j: int| 0 <= j < zs.len() implies !in_zone(
                    q,
                    (#[trigger] zs[j]).origin_spec(),
                ) by {
                    if j < l {
                        assert(sd[j] == zs[j]);
                    }
                }
            },
        }
    }
}

/// The registry of zones, fixed after startup; only record contents inside
/// each zone mutate afterwards.
pub struct Catalog {
    zones: Vec<ZoneAuthority>,
}

impl Catalog {
    /// The registered zones, in registration order.
    pub closed spec fn zones_seq(self) -> Seq<ZoneAuthority> {
        self.zones@
    }

    /// Well-formed: each zone well-formed, origins pairwise distinct.
    pub open spec fn wf(self) -> bool {
        &&& forall|i: int| 0 <= i < self.zones_seq().len() ==> (#[trigger] self.zones_seq()[i]).wf()
        &&& forall|i: int, j: int|
            0 <= i < j < self.zones_seq().len() ==> (#[trigger] self.zones_seq()[i]).origin_spec()
                != (#[trigger] self.zones_seq()[j]).origin_spec()
    }

    /// Some registered zone owns the (canonical) name.
    pub open spec fn has_authority(self, q: Seq<char>) -> bool {
        exists|i: int|
            0 <= i < self.zones_seq().len() && in_zone(
                q,
                (#[trigger] self.zones_seq()[i]).origin_spec(),
            )
    }

    /// Zone `i` owns the name and no owning zone has a longer origin.
    pub open spec fn is_best_authority(self, q: Seq<char>, i: int) -> bool {
        &&& 0 <= i < self.zones_seq().len()
        &&& in_zone(q, self.zones_seq()[i].origin_spec())
        &&& forall|j: int|
            0 <= j < self.zones_seq().len() && in_zone(
                q,
                (#[trigger] self.zones_seq()[j]).origin_spec(),
            ) ==> self.zones_seq()[j].origin_spec().len() <= self.zones_seq()[i].origin_spec().len()
    }

    /// An empty catalog.
    pub fn new() -> (r: Catalog)
        ensures
            r.wf(),
            r.zones_seq() == Seq::<ZoneAuthority>::empty(),
    {
        Catalog { zones: Vec::new() }
    }

    /// Registers one more zone; its origin must be new to the catalog.
    pub fn register(&mut self, zone: ZoneAuthority)
        requires
            old(self).wf(),
            zone.wf(),
            forall|i: int|
                0 <= i < old(self).zones_seq().len() ==> (
                #[trigger] old(self).zones_seq()[i]).origin_spec() != zone.origin_spec(),
        ensures
            final(self).wf(),
            final(self).zones_seq() == old(self).zones_seq().push(zone),
    {
        let ghost s0 = self.zones@;
        self.zones.push(zone);
        proof {
            assert forall|i: int| 0 <= i < self.zones@.len() implies (
            #[trigger] self.zones@[i]).wf() by {
                if i < s0.len() {
                    assert(self.zones@[i] == s0[i]);
                    assert(old(self).zones_seq()[i].wf());
                } else {
                    assert(self.zones@[i] == zone);
                }
            }
            assert forall|i: int, j: int| 0 <= i < j < self.zones@.len() implies (
            #[trigger] self.zones@[i]).origin_spec() != (
            #[trigger] self.zones@[j]).origin_spec() by {
                assert(self.zones@[i] == s0[i]);
                if j < s0.len() {
                    assert(self.zones@[j] == s0[j]);
                    assert(old(self).zones_seq()[i].origin_spec() != old(
                        self,
                    ).zones_seq()[j].origin_spec());
                } else {
                    assert(self.zones@[j] == zone);
                    assert(old(self).zones_seq()[i].origin_spec() != zone.origin_spec());
                }
            }
        }
    }

    /// Selects the owning zone of a canonical name: the registered zone
    /// whose origin is the longest matching suffix.
    pub fn resolve_authority(&self, qcanon: &Vec<char>) -> (r: Option<usize>)
        requires
            self.wf(),
        ensures
            match r {
                Some(i) => best_in(self.zones_seq(), qcanon@) == Option::Some(i as int)
                    && self.is_best_authority(qcanon@, i as int),
                None => best_in(self.zones_seq(), qcanon@) == Option::<int>::None
                    && !self.has_authority(qcanon@),
            },
    {
        let mut best: Option<usize> = None;
        let mut t: usize = 0;
        while t < self.zones.len()
            invariant
                t <= self.zones@.len(),
                match best {
                    Some(b) => b < t && best_in(self.zones@.take(t as int), qcanon@)
                        == Option::Some(b as int),
                    None => best_in(self.zones@.take(t as int), qcanon@) == Option::<int>::None,
                },
            decreases self.zones@.len() - t,
        {
            let ghost pre = self.zones@.take(t as int);
            let matched = self.zones[t].origin_matches(qcanon);
            if matched {
                match best {
                    Some(b) => {
                        if self.zones[b].origin_len() < self.zones[t].origin_len() {
                            best = Some(t);
                        }
                    },
                    None => {
                        best = Some(t);
                    },
                }
            }
            proof {
                let post = self.zones@.take(t + 1);
                assert(post.drop_last() =~= pre);
                assert(post.last() == self.zones@[t as int]);
            }
            t += 1;
        }
        proof {
            assert(self.zones@.take(self.zones@.len() as int) =~= self.zones@);
            lemma_best_in_props(self.zones@, qcanon@);
        }
        best
    }

    /// What the catalog must answer, as a function of its state: refused
    /// outside every zone, else the owning zone's answer.
    pub open spec fn query_spec(self, qname: Seq<char>, kind: QueryKind) -> QueryOutcome {
        let ql = lower_seq(qname);
        match best_in(self.zones_seq(), ql) {
            Option::None => QueryOutcome::Refused,
            Option::Some(i) => match self.zones_seq()[i].answer_spec(ql, kind) {
                ZoneAnswer::Positive(v, t) => QueryOutcome::Answer(v, t),
                ZoneAnswer::NotAuthoritative => QueryOutcome::NoRecord,
                ZoneAnswer::NoRecord => QueryOutcome::NoRecord,
            },
        }
    }

    /// Answers one query. A name outside every registered zone is refused;
    /// a name under a zone draws that zone's answer, never a refusal.
    pub fn query(&self, qname: &str, kind: QueryKind) -> (r: QueryOutcome)
        requires
            self.wf(),
        ensures
            r == self.query_spec(qname@, kind),
            !self.has_authority(lower_seq(qname@)) ==> r == QueryOutcome::Refused,
            self.has_authority(lower_seq(qname@)) ==> r != QueryOutcome::Refused,
    {
        let canon = canonical_name(qname);
        match self.resolve_authority(&canon) {
            Some(i) => {
                proof {
                    lemma_best_in_props(self.zones@, canon@);
                }
                match self.zones[i].answer(&canon, kind) {
                    ZoneAnswer::Positive(v, t) => QueryOutcome::Answer(v, t),
                    ZoneAnswer::NotAuthoritative => QueryOutcome::NoRecord,
                    ZoneAnswer::NoRecord => QueryOutcome::NoRecord,
                }
            },
            None => QueryOutcome::Refused,
        }
    }

    /// Applies an upsert to the owning zone of a valid name; reports
    /// whether any registered zone owned it.
    pub fn mutate_add(&mut self, name: &str, value: Ipv4, ttl: u32) -> (r: bool)
        requires
            old(self).wf(),
            valid_fqdn(name@),
        ensures
            final(self).wf(),
            match best_in(old(self).zones_seq(), lower_seq(name@)) {
                Option::Some(i) => {
                    &&& r
                    &&& zones_updated_at(old(self).zones_seq(), final(self).zones_seq(), i)
                    &&& final(self).zones_seq()[i].records() == old(
                        self,
                    ).zones_seq()[i].records().insert(
                        lower_seq(name@),
                        (RecordView { name: name@, value: value, ttl: ttl }),
                    )
                    &&& !old(self).zones_seq()[i].records().contains_key(lower_seq(name@))
                        ==> final(self).zones_seq()[i].records_seq() == old(
                        self,
                    ).zones_seq()[i].records_seq().push(
                        (RecordView { name: name@, value: value, ttl: ttl }),
                    )
                    &&& old(self).zones_seq()[i].records().contains_key(lower_seq(name@))
                        ==> final(self).zones_seq()[i].records_seq().len() == old(
                        self,
                    ).zones_seq()[i].records_seq().len()
                },
                Option::None => !r && *final(self) == *old(self),
            },
    {
        let canon = canonical_name(name);
        match self.resolve_authority(&canon) {
            Some(i) => {
                let ghost s0 = self.zones@;
                let mut z = self.zones.remove(i);
                z.upsert_record(name, value, ttl);
                self.zones.insert(i, z);
                proof {
                    assert(self.zones@ =~= s0.update(i as int, self.zones@[i as int]));
                    assert forall|p: int| 0 <= p < self.zones@.len() implies (
                    #[trigger] self.zones@[p]).wf() by {
                        if p != i {
                            assert(self.zones@[p] == s0[p]);
                        }
                    }
                    assert forall|p: int, q: int| 0 <= p < q < self.zones@.len() implies (
                    #[trigger] self.zones@[p]).origin_spec() != (
                    #[trigger] self.zones@[q]).origin_spec() by {
                        assert(self.zones@[p].origin_spec() == s0[p].origin_spec());
                        assert(self.zones@[q].origin_spec() == s0[q].origin_spec());
                    }
                }
                true
            },
            None => false,
        }
    }

    /// Applies a delete to the owning zone of a name; deleting an absent
    /// record succeeds and changes nothing. Reports whether any registered
    /// zone owned the name.
    pub fn mutate_delete(&mut self, name: &str) -> (r: bool)
        requires
            old(self).wf(),
        ensures
            final(self).wf(),
            match best_in(old(self).zones_seq(), lower_seq(name@)) {
                Option::Some(i) => {
                    &&& r
                    &&& zones_updated_at(old(self).zones_seq(), final(self).zones_seq(), i)
                    &&& final(self).zones_seq()[i].records() == old(
                        self,
                    ).zones_seq()[i].records().remove(lower_seq(name@))
                    &&& !old(self).zones_seq()[i].records().contains_key(lower_seq(name@))
                        ==> final(self).zones_seq() == old(self).zones_seq()
                },
                Option::None => !r && *final(self) == *old(self),
            },
    {
        let canon = canonical_name(name);
        match self.resolve_authority(&canon) {
            Some(i) => {
                let ghost s0 = self.zones@;
                let mut z = self.zones.remove(i);
                z.delete_record(name);
                self.zones.insert(i, z);
                proof {
                    assert(self.zones@ =~= s0.update(i as int, self.zones@[i as int]));
                    assert forall|p: int| 0 <= p < self.zones@.len() implies (
                    #[trigger] self.zones@[p]).wf() by {
                        if p != i {
                            assert(self.zones@[p] == s0[p]);
                        }
                    }
                    assert forall|p: int, q: int| 0 <= p < q < self.zones@.len() implies (
                    #[trigger] self.zones@[p]).origin_spec() != (
                    #[trigger] self.zones@[q]).origin_spec() by {
                        assert(self.zones@[p].origin_spec() == s0[p].origin_spec());
                        assert(self.zones@[q].origin_spec() == s0[q].origin_spec());
                    }
                    if !s0[i as int].records().contains_key(lower_seq(name@)) {
                        assert(self.zones@[i as int] == s0[i as int]);
                        assert(self.zones@ =~= s0);
                    }
                }
                true
            },
            None => false,
        }
    }

    /// A snapshot of every zone's records, zone by zone in registration
    /// order: display name, dotted-quad value and ttl for each record.
    pub fn snapshot(&self) -> (r: Vec<(String, String, u32)>)
        requires
            self.wf(),
        ensures
            r@.len() == all_records(self.zones_seq()).len(),
            forall|i: int|
                0 <= i < r@.len() ==> (#[trigger] r@[i]).0@ == all_records(self.zones_seq())[i].name
                    && r@[i].1@ == crate::ip::ipv4_text(all_records(self.zones_seq())[i].value)
                    && r@[i].2 == all_records(self.zones_seq())[i].ttl,
    {
        let mut r: Vec<(String, String, u32)> = Vec::new();
        let mut t: usize = 0;
        while t < self.zones.len()
            invariant
                t <= self.zones@.len(),
                self.wf(),
                r@.len() == all_records(self.zones@.take(t as int)).len(),
                forall|i: int|
                    0 <= i < r@.len() ==> (#[trigger] r@[i]).0@ == all_records(
                        self.zones@.take(t as int),
                    )[i].name && r@[i].1@ == crate::ip::ipv4_text(
                        all_records(self.zones@.take(t as int))[i].value,
                    ) && r@[i].2 == all_records(self.zones@.take(t as int))[i].ttl,
            decreases self.zones@.len() - t,
        {
            let ghost pre = self.zones@.take(t as int);
            proof {
                assert(self.zones_seq()[t as int].wf());
            }
            let mut part = self.zones[t].snapshot();
            let ghost rpre = r@;
            let mut w: usize = 0;
            while w < part.len()
                invariant
                    w <= part@.len(),
                    r@.len() == rpre.len() + w,
                    r@ =~= rpre + part@.take(w as int),
                decreases part@.len() - w,
            {
                let item = (part[w].0.clone(), part[w].1.clone(), part[w].2);
                proof {
                    assert(item.0@ == part@[w as int].0@);
                    assert(item.1@ == part@[w as int].1@);
                    assert(r@.push(item) =~= rpre + part@.take(w + 1));
                }
                r.push(item);
                w += 1;
            }
            proof {
                let post = self.zones@.take(t + 1);
                assert(post.drop_last() =~= pre);
                assert(post.last() == self.zones@[t as int]);
                assert(all_records(post) == all_records(pre) + self.zones@[t as int].records_seq());
                assert(part@.take(part@.len() as int) =~= part@);
                assert forall|i: int| 0 <= i < r@.len() implies (#[trigger] r@[i]).0@
                    == all_records(post)[i].name && r@[i].1@ == crate::ip::ipv4_text(
                    all_records(post)[i].value,
                ) && r@[i].2 == all_records(post)[i].ttl by {
                    if i < rpre.len() {
                        assert(r@[i] == rpre[i]);
                        assert(all_records(post)[i] == all_records(pre)[i]);
                    } else {
                        assert(r@[i] == part@[i - rpre.len()]);
                        assert(all_records(post)[i] == self.zones@[t as int].records_seq()[i
                            - rpre.len()]);
                    }
                }
            }
            t += 1;
        }
        proof {
            assert(self.zones@.take(self.zones@.len() as int) =~= self.zones@);
        }
        r
    }
}

/// All records of a sequence of zones, zone by zone.
pub open spec fn all_records(zs: Seq<ZoneAuthority>) -> Seq<RecordView>
    decreases zs.len(),
{
    if zs.len() == 0 {
        Seq::empty()
    } else {
        all_records(zs.drop_last()) + zs.last().records_seq()
    }
}

} // verus!
