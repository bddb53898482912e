//! Laws of the record state: what a query answers after an add, an
//! overwrite or a delete, and that mutations of one name never disturb
//! another. Each law is stated over the spec views that the operation
//! contracts use.

use vstd::prelude::*;

use crate::catalog::Catalog;
use crate::catalog::QueryOutcome;
use crate::catalog::best_in;
use crate::catalog::lemma_best_in_props;
use crate::catalog::zones_updated_at;
use crate::ip::Ipv4;
use crate::name::valid_fqdn;
use crate::name::lower_seq;
use crate::name::lemma_lower_idempotent;
use crate::store::RecordView;
use crate::zone::ZoneAuthority;
use crate::zone::QueryKind;
use crate::zone::ZoneAnswer;

verus! {

/// Zone sequences with pointwise equal origins route every name alike.
pub proof fn lemma_best_in_same_origins(
    zs1: Seq<ZoneAuthority>,
    zs2: Seq<ZoneAuthority>,
    q: Seq<char>,
)
    requires
        zs1.len() == zs2.len(),
        forall|j: int|
            0 <= j < zs1.len() ==> (#[trigger] zs1[j]).origin_spec() == (
            #[trigger] zs2[j]).origin_spec(),
    ensures
        best_in(zs1, q) == best_in(zs2, q),
    decreases zs1.len(),
{
    if zs1.len() > 0 {
        let l = zs1.len() - 1;
        assert forall|j: int| 0 <= j < l implies (#[trigger] zs1.drop_last()[j]).origin_spec() == (
        #[trigger] zs2.drop_last()[j]).origin_spec() by {
            assert(zs1.drop_last()[j] == zs1[j]);
            assert(zs2.drop_last()[j] == zs2[j]);
        }
        lemma_best_in_same_origins(zs1.drop_last(), zs2.drop_last(), q);
        assert(zs1[l].origin_spec() == zs2[l].origin_spec());
        match best_in(zs1.drop_last(), q) {
            Option::Some(b) => {
                lemma_best_in_props(zs1.drop_last(), q);
                assert(zs1.drop_last()[b] == zs1[b]);
                assert(zs1[b].origin_spec() == zs2[b].origin_spec());
            },
            Option::None => {
            },
        }
    }
}

/// A catalog mutation confined to the records of one zone preserves the
/// origins of every zone.
pub proof fn lemma_updated_origins(pre: Seq<ZoneAuthority>, post: Seq<ZoneAuthority>, i: int)
    requires
        zones_updated_at(pre, post, i),
        0 <= i < pre.len(),
    ensures
        forall|j: int|
            0 <= j < pre.len() ==> (#[trigger] pre[j]).origin_spec() == (
            #[trigger] post[j]).origin_spec(),
{
    assert forall|j: int| 0 <= j < pre.len() implies (#[trigger] pre[j]).origin_spec() == (
    #[trigger] post[j]).origin_spec() by {
        if j != i {
            assert(post[j] == pre[j]);
        }
    }
}

/// After a record for a name is stored, an address query for that name
/// answers exactly the stored address and ttl — the pair comes whole from
/// the one stored record, never a mixture of old and new fields.
pub proof fn lemma_add_then_query(
    c0: Catalog,
    c1: Catalog,
    name: Seq<char>,
    ip: Ipv4,
    ttl: u32,
    i: int,
)
    requires
        c0.wf(),
        c1.wf(),
        valid_fqdn(name),
        best_in(c0.zones_seq(), lower_seq(name)) == Option::Some(i),
        zones_updated_at(c0.zones_seq(), c1.zones_seq(), i),
        c1.zones_seq()[i].records() == c0.zones_seq()[i].records().insert(
            lower_seq(name),
            (RecordView { name: name, value: ip, ttl: ttl }),
        ),
    ensures
        c1.query_spec(name, QueryKind::Address) == QueryOutcome::Answer(ip, ttl),
{
    let ql = lower_seq(name);
    lemma_best_in_props(c0.zones_seq(), ql);
    lemma_updated_origins(c0.zones_seq(), c1.zones_seq(), i);
    lemma_best_in_same_origins(c1.zones_seq(), c0.zones_seq(), ql);
    lemma_lower_idempotent(name);
    let z1 = c1.zones_seq()[i];
    assert(z1.records().contains_key(ql));
    assert(z1.records()[ql] == (RecordView { name: name, value: ip, ttl: ttl }));
    assert(z1.answer_spec(ql, QueryKind::Address) == ZoneAnswer::Positive(ip, ttl));
}

/// Overwriting a name leaves exactly the later record: after adds of
/// (name, v1, t1) and then (name, v2, t2), an address query answers
/// (v2, t2) only — never a mixture.
pub proof fn lemma_overwrite(
    c0: Catalog,
    c1: Catalog,
    c2: Catalog,
    name: Seq<char>,
    v1: Ipv4,
    t1: u32,
    v2: Ipv4,
    t2: u32,
    i: int,
)
    requires
        c0.wf(),
        c1.wf(),
        c2.wf(),
        valid_fqdn(name),
        best_in(c0.zones_seq(), lower_seq(name)) == Option::Some(i),
        zones_updated_at(c0.zones_seq(), c1.zones_seq(), i),
        c1.zones_seq()[i].records() == c0.zones_seq()[i].records().insert(
            lower_seq(name),
            (RecordView { name: name, value: v1, ttl: t1 }),
        ),
        zones_updated_at(c1.zones_seq(), c2.zones_seq(), i),
        c2.zones_seq()[i].records() == c1.zones_seq()[i].records().insert(
            lower_seq(name),
            (RecordView { name: name, value: v2, ttl: t2 }),
        ),
    ensures
        c2.query_spec(name, QueryKind::Address) == QueryOutcome::Answer(v2, t2),
        c2.zones_seq()[i].records()[lower_seq(name)] == (RecordView {
            name: name,
            value: v2,
            ttl: t2,
        }),
{
    let ql = lower_seq(name);
    lemma_best_in_props(c0.zones_seq(), ql);
    lemma_updated_origins(c0.zones_seq(), c1.zones_seq(), i);
    lemma_best_in_same_origins(c1.zones_seq(), c0.zones_seq(), ql);
    lemma_add_then_query(c1, c2, name, v2, t2, i);
}

/// Deleting a name's record leaves the zone authoritative for the name:
/// a later address query draws the authoritative negative answer, not a
/// refusal.
pub proof fn lemma_delete_then_query(c0: Catalog, c1: Catalog, name: Seq<char>, i: int)
    requires
        c0.wf(),
        c1.wf(),
        best_in(c0.zones_seq(), lower_seq(name)) == Option::Some(i),
        zones_updated_at(c0.zones_seq(), c1.zones_seq(), i),
        c1.zones_seq()[i].records() == c0.zones_seq()[i].records().remove(lower_seq(name)),
    ensures
        c1.query_spec(name, QueryKind::Address) == QueryOutcome::NoRecord,
        c1.query_spec(name, QueryKind::Address) != QueryOutcome::Refused,
{
    let ql = lower_seq(name);
    lemma_best_in_props(c0.zones_seq(), ql);
    lemma_updated_origins(c0.zones_seq(), c1.zones_seq(), i);
    lemma_best_in_same_origins(c1.zones_seq(), c0.zones_seq(), ql);
    lemma_lower_idempotent(name);
    let z1 = c1.zones_seq()[i];
    assert(!z1.records().contains_key(ql));
    assert(z1.answer_spec(ql, QueryKind::Address) == ZoneAnswer::NoRecord);
}

/// A mutation of one name never disturbs another: after an add for `name`,
/// a query for any name with a different canonical form answers as before.
pub proof fn lemma_add_preserves_other_names(
    c0: Catalog,
    c1: Catalog,
    name: Seq<char>,
    ip: Ipv4,
    ttl: u32,
    i: int,
    other: Seq<char>,
    kind: QueryKind,
)
    requires
        c0.wf(),
        c1.wf(),
        valid_fqdn(name),
        best_in(c0.zones_seq(), lower_seq(name)) == Option::Some(i),
        zones_updated_at(c0.zones_seq(), c1.zones_seq(), i),
        c1.zones_seq()[i].records() == c0.zones_seq()[i].records().insert(
            lower_seq(name),
            (RecordView { name: name, value: ip, ttl: ttl }),
        ),
        lower_seq(other) != lower_seq(name),
    ensures
        c1.query_spec(other, kind) == c0.query_spec(other, kind),
{
    let qo = lower_seq(other);
    lemma_best_in_props(c0.zones_seq(), qo);
    lemma_best_in_props(c0.zones_seq(), lower_seq(name));
    lemma_updated_origins(c0.zones_seq(), c1.zones_seq(), i);
    lemma_best_in_same_origins(c1.zones_seq(), c0.zones_seq(), qo);
    lemma_lower_idempotent(other);
    match best_in(c0.zones_seq(), qo) {
        Option::Some(j) => {
            if j == i {
                let z0 = c0.zones_seq()[i];
                let z1 = c1.zones_seq()[i];
                assert(z1.records().contains_key(qo) == z0.records().contains_key(qo));
                if z0.records().contains_key(qo) {
                    assert(z1.records()[qo] == z0.records()[qo]);
                }
                assert(z1.answer_spec(qo, kind) == z0.answer_spec(qo, kind));
            } else {
                assert(c1.zones_seq()[j] == c0.zones_seq()[j]);
            }
        },
        Option::None => {
        },
    }
}

} // verus!
