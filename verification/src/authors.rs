//! Folding an ordered sequence of raw registry records into the current set
//! of authorized author addresses.
//!
//! Records arrive in the order the registry returned them, which is taken as
//! the true chronological order. Each decodable record from the manager
//! upserts its address: the last event for an address wins. The resolved set
//! holds exactly the addresses whose last event was an add.

use vstd::prelude::*;
use crate::address::Address;
use crate::meta::decode_meta;
use crate::meta::spec_decode_meta;
use crate::meta::DecodeError;
use crate::text::str_eq;

verus! {

/// One raw row from the registry: the attested metadata text and the account
/// that sent it.
#[derive(Debug)]
pub struct MetaRecord {
    pub meta: String,
    pub sender: String,
}

/// The mathematical content of a raw row.
pub struct MetaRecordV {
    pub meta: Seq<char>,
    pub sender: Seq<char>,
}

impl View for MetaRecord {
    type V = MetaRecordV;

    open spec fn view(&self) -> MetaRecordV {
        MetaRecordV { meta: self.meta@, sender: self.sender@ }
    }
}

/// The views of a row sequence.
pub open spec fn record_views(records: Seq<MetaRecord>) -> Seq<MetaRecordV> {
    records.map_values(|r: MetaRecord| r@)
}

/// The authorization events that a record sequence yields for one manager,
/// in record order: a record whose sender is not the manager, or whose
/// metadata does not decode, yields nothing.
pub open spec fn spec_events(records: Seq<MetaRecordV>, manager: Seq<char>) -> Seq<(Seq<u8>, bool)>
    decreases records.len(),
{
    if records.len() == 0 {
        Seq::empty()
    } else {
        let init = spec_events(records.drop_last(), manager);
        let last = records.last();
        if last.sender == manager {
            match spec_decode_meta(last.meta) {
                Ok(ev) => init.push(ev),
                Err(_) => init,
            }
        } else {
            init
        }
    }
}

/// Folds events in order into a mapping from address to its latest action:
/// every event overwrites any earlier entry for its address.
pub open spec fn event_map(events: Seq<(Seq<u8>, bool)>) -> Map<Seq<u8>, bool>
    decreases events.len(),
{
    if events.len() == 0 {
        Map::empty()
    } else {
        event_map(events.drop_last()).insert(events.last().0, events.last().1)
    }
}

/// A record sequence authorizes an address when the last event naming that
/// address is an add.
pub open spec fn spec_authorized(
    records: Seq<MetaRecordV>,
    manager: Seq<char>,
    addr: Seq<u8>,
) -> bool {
    let m = event_map(spec_events(records, manager));
    m.dom().contains(addr) && m[addr]
}

/// Some entry of `r` holds the address bytes `addr`.
pub open spec fn result_has(r: Seq<Address>, addr: Seq<u8>) -> bool {
    exists|i: int| 0 <= i < r.len() && (#[trigger] r[i])@ == addr
}

/// The upsert table and the event map of the records seen so far agree:
/// table keys are distinct and carry the map's entries, and every mapped
/// address has a table row.
spec fn table_inv(keys: Seq<Address>, flags: Seq<bool>, m: Map<Seq<u8>, bool>) -> bool {
    &&& keys.len() == flags.len()
    &&& (forall|i: int, j: int| 0 <= i < j < keys.len() ==> (#[trigger] keys[i])@ != (
    #[trigger] keys[j])@)
    &&& (forall|k: int|
        0 <= k < keys.len() ==> m.dom().contains((#[trigger] keys[k])@) && m[keys[k]@] == flags[k])
    &&& (forall|addr: Seq<u8>|
        #[trigger] m.dom().contains(addr) ==> exists|k: int|
            0 <= k < keys.len() && (#[trigger] keys[k])@ == addr)
}

/// Resolves raw registry records into the set of authorized addresses.
///
/// Records are folded in the order given: a record is skipped when its
/// sender is not `manager` or its metadata does not decode; otherwise its
/// event overwrites any earlier event for the same address. The result holds
/// exactly the addresses whose last event was an add, each once.
#[verifier::loop_isolation(false)]
pub fn resolve_authors(records: &Vec<MetaRecord>, manager: &str) -> (r: Vec<Address>)
    ensures
        forall|i: int, j: int| 0 <= i < j < r@.len() ==> (#[trigger] r@[i])@ != (#[trigger] r@[j])@,
        forall|i: int| 0 <= i < r@.len() ==> (#[trigger] r@[i]).wf(),
        forall|addr: Seq<u8>|
            #[trigger] result_has(r@, addr) <==> spec_authorized(
                record_views(records@),
                manager@,
                addr,
            ),
{
    let ghost rv = record_views(records@);
    let mut keys: Vec<Address> = Vec::new();
    let mut flags: Vec<bool> = Vec::new();
    let mut idx: usize = 0;
    while idx < records.len()
        invariant
            idx <= records.len(),
            table_inv(keys@, flags@, event_map(spec_events(rv.take(idx as int), manager@))),
            forall|k: int| 0 <= k < keys@.len() ==> (#[trigger] keys@[k]).wf(),
        decreases records.len() - idx,
    {
        let ghost m_pre = event_map(spec_events(rv.take(idx as int), manager@));
        proof {
            assert(rv.take(idx + 1).drop_last() =~= rv.take(idx as int));
            assert(rv.take(idx + 1).last() == rv[idx as int]);
            assert(rv[idx as int] == records@[idx as int]@);
        }
        let rec = &records[idx];
        if str_eq(rec.sender.as_str(), manager) {
            match decode_meta(rec.meta.as_str()) {
                Ok(ar) => {
                    let ghost addr_v = ar.address@;
                    let ghost b = ar.is_add;
                    let ghost m_post = m_pre.insert(addr_v, b);
                    let ghost evs_pre = spec_events(rv.take(idx as int), manager@);
                    proof {
                        let evs_post = spec_events(rv.take(idx + 1), manager@);
                        assert(evs_post == evs_pre.push((addr_v, b)));
                        assert(evs_post.drop_last() =~= evs_pre);
                        assert(evs_post.last() == (addr_v, b));
                        assert(event_map(evs_post) == m_post);
                    }
                    let mut k: usize = 0;
                    let mut found = false;
                    while k < keys.len() && !found
                        invariant
                            k <= keys.len(),
                            !found ==> forall|j: int|
                                0 <= j < k ==> (#[trigger] keys@[j])@ != addr_v,
                            found ==> k < keys@.len() && keys@[k as int]@ == addr_v,
                        decreases keys.len() - k + (if found {
                            0int
                        } else {
                            1int
                        }),
                    {
                        if keys[k].same(&ar.address) {
                            found = true;
                        } else {
                            k = k + 1;
                        }
                    }
                    let ghost keys0 = keys@;
                    let ghost flags0 = flags@;
                    if found {
                        flags.set(k, ar.is_add);
                        proof {
                            assert(keys@ == keys0);
                            assert(flags@ == flags0.update(k as int, b));
                            assert forall|k2: int| 0 <= k2 < keys@.len() implies m_post.dom().contains(
                                (#[trigger] keys@[k2])@,
                            ) && m_post[keys@[k2]@] == flags@[k2] by {
                                if k2 == k {
                                    assert(keys@[k2]@ == addr_v);
                                } else {
                                    assert(keys0[k as int]@ == addr_v);
                                    assert(keys@[k2]@ != addr_v);
                                    assert(m_pre.dom().contains(keys0[k2]@));
                                }
                            }
                            assert forall|addr: Seq<u8>| m_post.dom().contains(addr) implies exists|
                                kk: int,
                            | 0 <= kk < keys@.len() && (#[trigger] keys@[kk])@ == addr by {
                                if addr == addr_v {
                                    assert(keys@[k as int]@ == addr);
                                } else {
                                    assert(m_pre.dom().contains(addr));
                                    let kk = choose|kk: int|
                                        0 <= kk < keys0.len() && (#[trigger] keys0[kk])@ == addr;
                                    assert(keys@[kk]@ == addr);
                                }
                            }
                            assert(table_inv(keys@, flags@, m_post));
                        }
                    } else {
                        keys.push(ar.address);
                        flags.push(ar.is_add);
                        proof {
                            assert(keys@ == keys0.push(ar.address));
                            assert(flags@ == flags0.push(b));
                            assert(forall|j: int|
                                0 <= j < keys0.len() ==> (#[trigger] keys0[j])@ != addr_v);
                            assert forall|i: int, j: int| 0 <= i < j < keys@.len() implies (
                            #[trigger] keys@[i])@ != (#[trigger] keys@[j])@ by {
                                if j == keys@.len() - 1 {
                                    assert(keys@[i] == keys0[i]);
                                    assert(keys@[j]@ == addr_v);
                                } else {
                                    assert(keys@[i] == keys0[i] && keys@[j] == keys0[j]);
                                }
                            }
                            assert forall|k2: int| 0 <= k2 < keys@.len() implies m_post.dom().contains(
                                (#[trigger] keys@[k2])@,
                            ) && m_post[keys@[k2]@] == flags@[k2] by {
                                if k2 == keys@.len() - 1 {
                                    assert(keys@[k2]@ == addr_v);
                                } else {
                                    assert(keys@[k2] == keys0[k2]);
                                    assert(keys0[k2]@ != addr_v);
                                    assert(m_pre.dom().contains(keys0[k2]@));
                                }
                            }
                            assert forall|addr: Seq<u8>| m_post.dom().contains(addr) implies exists|
                                kk: int,
                            | 0 <= kk < keys@.len() && (#[trigger] keys@[kk])@ == addr by {
                                if addr == addr_v {
                                    assert(keys@[keys@.len() - 1]@ == addr);
                                } else {
                                    assert(m_pre.dom().contains(addr));
                                    let kk = choose|kk: int|
                                        0 <= kk < keys0.len() && (#[trigger] keys0[kk])@ == addr;
                                    assert(keys@[kk]@ == addr);
                                }
                            }
                            assert(table_inv(keys@, flags@, m_post));
                        }
                    }
                },
                Err(_) => {
                    proof {
                        assert(spec_events(rv.take(idx + 1), manager@) =~= spec_events(
                            rv.take(idx as int),
                            manager@,
                        ));
                    }
                },
            }
        } else {
            proof {
                assert(spec_events(rv.take(idx + 1), manager@) =~= spec_events(
                    rv.take(idx as int),
                    manager@,
                ));
            }
        }
        idx = idx + 1;
    }
    proof {
        assert(rv.take(records@.len() as int) =~= rv);
    }
    let ghost m_final = event_map(spec_events(rv, manager@));
    let mut result: Vec<Address> = Vec::new();
    let mut k: usize = 0;
    while k < keys.len()
        invariant
            k <= keys@.len(),
            table_inv(keys@, flags@, m_final),
            forall|j: int| 0 <= j < keys@.len() ==> (#[trigger] keys@[j]).wf(),
            forall|i: int, j: int|
                0 <= i < j < result@.len() ==> (#[trigger] result@[i])@ != (#[trigger] result@[j])@,
            forall|i: int| 0 <= i < result@.len() ==> (#[trigger] result@[i]).wf(),
            forall|addr: Seq<u8>|
                #[trigger] result_has(result@, addr) <==> exists|j: int|
                    0 <= j < k && (#[trigger] keys@[j])@ == addr && flags@[j],
        decreases keys.len() - k,
    {
        if flags[k] {
            let ghost r0 = result@;
            let a = keys[k].duplicate();
            result.push(a);
            proof {
                assert(result@ == r0.push(a));
                assert(a@ == keys@[k as int]@);
                assert forall|i: int, j: int| 0 <= i < j < result@.len() implies (
                #[trigger] result@[i])@ != (#[trigger] result@[j])@ by {
                    if j == result@.len() - 1 {
                        assert(result@[i] == r0[i]);
                        assert(result_has(r0, r0[i]@)) by {
                            assert((r0[i])@ == r0[i]@);
                        }
                        let jj = choose|jj: int|
                            0 <= jj < k && (#[trigger] keys@[jj])@ == r0[i]@ && flags@[jj];
                        assert(keys@[jj]@ != keys@[k as int]@);
                    } else {
                        assert(result@[i] == r0[i] && result@[j] == r0[j]);
                    }
                }
                assert forall|addr: Seq<u8>| #[trigger] result_has(result@, addr) implies exists|
                    j: int,
                | 0 <= j < k + 1 && (#[trigger] keys@[j])@ == addr && flags@[j] by {
                    let i = choose|i: int|
                        0 <= i < result@.len() && (#[trigger] result@[i])@ == addr;
                    if i < r0.len() {
                        assert(r0[i] == result@[i]);
                        assert(result_has(r0, addr));
                        let j = choose|j: int|
                            0 <= j < k && (#[trigger] keys@[j])@ == addr && flags@[j];
                        assert(0 <= j < k + 1 && keys@[j]@ == addr && flags@[j]);
                    } else {
                        assert(keys@[k as int]@ == addr && flags@[k as int]);
                    }
                }
                assert forall|addr: Seq<u8>|
                    exists|j: int|
                        0 <= j < k + 1 && (#[trigger] keys@[j])@ == addr
                            && flags@[j] implies #[trigger] result_has(result@, addr) by {
                    let j = choose|j: int|
                        0 <= j < k + 1 && (#[trigger] keys@[j])@ == addr && flags@[j];
                    if j < k {
                        assert(result_has(r0, addr));
                        let i = choose|i: int| 0 <= i < r0.len() && (#[trigger] r0[i])@ == addr;
                        assert((result@[i])@ == addr);
                    } else {
                        assert((result@[result@.len() - 1])@ == addr);
                    }
                }
            }
        } else {
            proof {
                assert forall|addr: Seq<u8>|
                    exists|j: int|
                        0 <= j < k + 1 && (#[trigger] keys@[j])@ == addr
                            && flags@[j] implies #[trigger] result_has(result@, addr) by {
                    let j = choose|j: int|
                        0 <= j < k + 1 && (#[trigger] keys@[j])@ == addr && flags@[j];
                    assert(j < k);
                }
            }
        }
        k = k + 1;
    }
    proof {
        assert forall|addr: Seq<u8>| #[trigger] result_has(result@, addr) implies spec_authorized(
            rv,
            manager@,
            addr,
        ) by {
            let j = choose|j: int|
                0 <= j < keys@.len() && (#[trigger] keys@[j])@ == addr && flags@[j];
            assert(m_final.dom().contains(addr) && m_final[addr]);
        }
        assert forall|addr: Seq<u8>| spec_authorized(rv, manager@, addr) implies #[trigger] result_has(
            result@,
            addr,
        ) by {
            let j = choose|j: int| 0 <= j < keys@.len() && (#[trigger] keys@[j])@ == addr;
            assert(flags@[j]);
        }
    }
    result
}

proof fn lemma_events_of_three(records: Seq<MetaRecordV>, manager: Seq<char>)
    requires
        records.len() == 3,
        forall|i: int| 0 <= i < 3 ==> (#[trigger] records[i]).sender == manager,
        spec_decode_meta(records[0].meta) is Ok,
        spec_decode_meta(records[1].meta) is Ok,
        spec_decode_meta(records[2].meta) is Ok,
    ensures
        spec_events(records, manager) == seq![
            spec_decode_meta(records[0].meta)->Ok_0,
            spec_decode_meta(records[1].meta)->Ok_0,
            spec_decode_meta(records[2].meta)->Ok_0,
        ],
{
    reveal_with_fuel(spec_events, 5);
    assert(records.drop_last().len() == 2);
    assert(records.drop_last().last() == records[1]);
    assert(records.drop_last()[0] == records[0]);
    assert(records.drop_last().drop_last().len() == 1);
    assert(records.drop_last().drop_last().last() == records[0]);
    assert(records.drop_last().drop_last().drop_last().len() == 0);
    assert(spec_events(records, manager) =~= seq![
        spec_decode_meta(records[0].meta)->Ok_0,
        spec_decode_meta(records[1].meta)->Ok_0,
        spec_decode_meta(records[2].meta)->Ok_0,
    ]);
}

/// Resolution is last-write-wins: three records from the manager whose
/// metadata decodes to "add `a`, add `b`, remove `a`", in that order,
/// authorize exactly `b` — the later remove overrides `a`'s earlier add.
pub proof fn lemma_resolve_remove_overrides(
    records: Seq<MetaRecordV>,
    manager: Seq<char>,
    a: Seq<u8>,
    b: Seq<u8>,
)
    requires
        a != b,
        records.len() == 3,
        forall|i: int| 0 <= i < 3 ==> (#[trigger] records[i]).sender == manager,
        spec_decode_meta(records[0].meta) == Ok::<_, DecodeError>((a, true)),
        spec_decode_meta(records[1].meta) == Ok::<_, DecodeError>((b, true)),
        spec_decode_meta(records[2].meta) == Ok::<_, DecodeError>((a, false)),
    ensures
        !spec_authorized(records, manager, a),
        spec_authorized(records, manager, b),
        forall|x: Seq<u8>| #[trigger] spec_authorized(records, manager, x) ==> x == b,
{
    lemma_events_of_three(records, manager);
    assert(spec_events(records, manager) == seq![(a, true), (b, true), (a, false)]);
    lemma_remove_overrides(a, b);
}

/// Resolution collapses idempotent repeats: two records from the manager
/// whose metadata both decode to "add `a`" authorize exactly `a`, once.
pub proof fn lemma_resolve_repeat_add(records: Seq<MetaRecordV>, manager: Seq<char>, a: Seq<u8>)
    requires
        records.len() == 2,
        forall|i: int| 0 <= i < 2 ==> (#[trigger] records[i]).sender == manager,
        spec_decode_meta(records[0].meta) == Ok::<_, DecodeError>((a, true)),
        spec_decode_meta(records[1].meta) == Ok::<_, DecodeError>((a, true)),
    ensures
        spec_authorized(records, manager, a),
        forall|x: Seq<u8>| #[trigger] spec_authorized(records, manager, x) ==> x == a,
{
    reveal_with_fuel(spec_events, 4);
    assert(records.drop_last().len() == 1);
    assert(records.drop_last().last() == records[0]);
    assert(records.drop_last().drop_last().len() == 0);
    assert(spec_events(records, manager) =~= seq![(a, true), (a, true)]);
    lemma_repeat_add_collapses(a);
}

/// Last write wins: a later remove overrides an earlier add of the same
/// address. Folding "add `a`, add `b`, remove `a`" leaves `b` as the only
/// authorized address.
pub proof fn lemma_remove_overrides(a: Seq<u8>, b: Seq<u8>)
    requires
        a != b,
    ensures
        ({
            let m = event_map(seq![(a, true), (b, true), (a, false)]);
            &&& m.dom().contains(a) && !m[a]
            &&& m.dom().contains(b) && m[b]
            &&& forall|x: Seq<u8>| #[trigger] m.dom().contains(x) ==> x == a || x == b
        }),
{
    reveal_with_fuel(event_map, 5);
    let s = seq![(a, true), (b, true), (a, false)];
    assert(s.drop_last() =~= seq![(a, true), (b, true)]);
    assert(s.drop_last().drop_last() =~= seq![(a, true)]);
    assert(s.drop_last().drop_last().drop_last() =~= Seq::<(Seq<u8>, bool)>::empty());
}

/// Repeated adds collapse: folding "add `a`, add `a`" authorizes `a` once,
/// exactly as a single add would.
pub proof fn lemma_repeat_add_collapses(a: Seq<u8>)
    ensures
        ({
            let m = event_map(seq![(a, true), (a, true)]);
            &&& m.dom().contains(a) && m[a]
            &&& forall|x: Seq<u8>| #[trigger] m.dom().contains(x) ==> x == a
            &&& m == event_map(seq![(a, true)])
        }),
{
    reveal_with_fuel(event_map, 4);
    let s = seq![(a, true), (a, true)];
    assert(s.drop_last() =~= seq![(a, true)]);
    assert(s.drop_last().drop_last() =~= Seq::<(Seq<u8>, bool)>::empty());
    assert(event_map(s) =~= event_map(seq![(a, true)]));
}

} // verus!
