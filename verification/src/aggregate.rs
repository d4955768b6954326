//! Joining the per-source pin fetches: fail as a whole on any source's
//! failure, otherwise merge every source's list into one deduplicated set.

use vstd::prelude::*;
use crate::fetch::FetchError;
use crate::ipfs::ContentId;

verus! {

/// Some entry of `cids` holds the bytes `x`.
pub open spec fn cids_have(cids: Seq<ContentId>, x: Seq<u8>) -> bool {
    exists|i: int| 0 <= i < cids.len() && (#[trigger] cids[i])@ == x
}

/// Some list in `lists` holds an identifier with the bytes `x`.
pub open spec fn lists_have(lists: Seq<Vec<ContentId>>, x: Seq<u8>) -> bool {
    exists|i: int| 0 <= i < lists.len() && cids_have((#[trigger] lists[i])@, x)
}

/// Some successful result in `results` holds an identifier with the bytes
/// `x`.
pub open spec fn ok_results_have(
    results: Seq<Result<Vec<ContentId>, FetchError>>,
    x: Seq<u8>,
) -> bool {
    exists|i: int|
        0 <= i < results.len() && (#[trigger] results[i]) is Ok && cids_have(
            results[i]->Ok_0@,
            x,
        )
}

/// Every result in `results` is a success.
pub open spec fn all_ok(results: Seq<Result<Vec<ContentId>, FetchError>>) -> bool {
    forall|i: int| 0 <= i < results.len() ==> (#[trigger] results[i]) is Ok
}

/// The error of the first failed result, in source order.
pub open spec fn first_error(results: Seq<Result<Vec<ContentId>, FetchError>>) -> FetchError
    recommends
        !all_ok(results),
    decreases results.len(),
{
    if results.len() == 0 {
        arbitrary()
    } else if results[0] is Err {
        results[0]->Err_0
    } else {
        first_error(results.skip(1))
    }
}

proof fn lemma_first_error_at(results: Seq<Result<Vec<ContentId>, FetchError>>, m: int)
    requires
        0 <= m < results.len(),
        results[m] is Err,
        forall|k: int| 0 <= k < m ==> (#[trigger] results[k]) is Ok,
    ensures
        first_error(results) == results[m]->Err_0,
    decreases m,
{
    if m == 0 {
    } else {
        assert(results[0] is Ok);
        lemma_first_error_at(results.skip(1), m - 1);
        assert(results.skip(1)[m - 1] == results[m]);
    }
}

/// True when some entry of `cids` holds the same bytes as `c`.
fn cids_contains(cids: &Vec<ContentId>, c: &ContentId) -> (r: bool)
    ensures
        r == cids_have(cids@, c@),
{
    let mut i: usize = 0;
    while i < cids.len()
        invariant
            i <= cids@.len(),
            forall|j: int| 0 <= j < i ==> (#[trigger] cids@[j])@ != c@,
        decreases cids.len() - i,
    {
        if cids[i].same(c) {
            return true;
        }
        i = i + 1;
    }
    false
}

/// Merges the per-source identifier lists into one list of distinct
/// identifiers holding, by byte-exact equality, exactly the union of the
/// lists. The iteration order of the merged set is unspecified.
#[verifier::loop_isolation(false)]
pub fn merge_pins(lists: &Vec<Vec<ContentId>>) -> (r: Vec<ContentId>)
    ensures
        forall|i: int, j: int| 0 <= i < j < r@.len() ==> (#[trigger] r@[i])@ != (#[trigger] r@[j])@,
        forall|x: Seq<u8>| #[trigger] cids_have(r@, x) <==> lists_have(lists@, x),
{
    let mut out: Vec<ContentId> = Vec::new();
    let mut i: usize = 0;
    while i < lists.len()
        invariant
            i <= lists@.len(),
            forall|a: int, b: int|
                0 <= a < b < out@.len() ==> (#[trigger] out@[a])@ != (#[trigger] out@[b])@,
            forall|x: Seq<u8>| #[trigger] cids_have(out@, x) <==> lists_have(lists@.take(i as int), x),
        decreases lists.len() - i,
    {
        let list = &lists[i];
        let mut j: usize = 0;
        while j < list.len()
            invariant
                j <= list@.len(),
                list == &lists[i as int],
                i < lists@.len(),
                forall|a: int, b: int|
                    0 <= a < b < out@.len() ==> (#[trigger] out@[a])@ != (#[trigger] out@[b])@,
                forall|x: Seq<u8>|
                    #[trigger] cids_have(out@, x) <==> lists_have(lists@.take(i as int), x)
                        || cids_have(list@.take(j as int), x),
            decreases list.len() - j,
        {
            let ghost out0 = out@;
            let c = &list[j];
            if !cids_contains(&out, c) {
                out.push(c.duplicate());
                proof {
                    assert forall|x: Seq<u8>| #[trigger] cids_have(out@, x) implies lists_have(
                        lists@.take(i as int),
                        x,
                    ) || cids_have(list@.take(j + 1), x) by {
                        let k = choose|k: int| 0 <= k < out@.len() && (#[trigger] out@[k])@ == x;
                        if k < out0.len() {
                            assert(out0[k] == out@[k]);
                            assert(cids_have(out0, x));
                        } else {
                            assert(out@[k]@ == list@[j as int]@);
                            assert(list@.take(j + 1)[j as int]@ == x);
                            assert(cids_have(list@.take(j + 1), x));
                        }
                    }
                    assert forall|x: Seq<u8>|
                        lists_have(lists@.take(i as int), x) || cids_have(
                            list@.take(j + 1),
                            x,
                        ) implies #[trigger] cids_have(out@, x) by {
                        if lists_have(lists@.take(i as int), x) || cids_have(
                            list@.take(j as int),
                            x,
                        ) {
                            assert(cids_have(out0, x));
                            let k = choose|k: int| 0 <= k < out0.len() && (#[trigger] out0[k])@
                                == x;
                            assert(out@[k]@ == x);
                        } else {
                            let k = choose|k: int|
                                0 <= k < list@.take(j + 1).len() && (#[trigger] list@.take(j + 1)[k])@
                                    == x;
                            assert(k == j);
                            assert(out@[out@.len() - 1]@ == x);
                        }
                    }
                }
            } else {
                proof {
                    assert forall|x: Seq<u8>|
                        lists_have(lists@.take(i as int), x) || cids_have(
                            list@.take(j + 1),
                            x,
                        ) implies #[trigger] cids_have(out@, x) by {
                        if lists_have(lists@.take(i as int), x) || cids_have(
                            list@.take(j as int),
                            x,
                        ) {
                        } else {
                            let k = choose|k: int|
                                0 <= k < list@.take(j + 1).len() && (#[trigger] list@.take(j + 1)[k])@
                                    == x;
                            assert(k == j);
                            assert(list@[j as int]@ == x);
                            assert(cids_have(out@, x));
                        }
                    }
                }
            }
            j = j + 1;
        }
        proof {
            assert(list@.take(list@.len() as int) =~= list@);
            assert forall|x: Seq<u8>|
                lists_have(lists@.take(i as int), x) || cids_have(
                    list@,
                    x,
                ) implies #[trigger] lists_have(lists@.take(i + 1), x) by {
                if lists_have(lists@.take(i as int), x) {
                    let k = choose|k: int|
                        0 <= k < lists@.take(i as int).len() && cids_have(
                            (#[trigger] lists@.take(i as int)[k])@,
                            x,
                        );
                    assert(lists@.take(i + 1)[k] == lists@[k]);
                    assert(cids_have(lists@.take(i + 1)[k]@, x));
                } else {
                    assert(lists@.take(i + 1)[i as int] == lists@[i as int]);
                    assert(cids_have(lists@.take(i + 1)[i as int]@, x));
                }
            }
            assert forall|x: Seq<u8>| #[trigger] lists_have(lists@.take(i + 1), x) implies lists_have(
                lists@.take(i as int),
                x,
            ) || cids_have(list@, x) by {
                let k = choose|k: int|
                    0 <= k < lists@.take(i + 1).len() && cids_have(
                        (#[trigger] lists@.take(i + 1)[k])@,
                        x,
                    );
                if k < i {
                    assert(lists@.take(i as int)[k] == lists@[k]);
                    assert(cids_have(lists@.take(i as int)[k]@, x));
                } else {
                    assert(lists@.take(i + 1)[k] == lists@[i as int]);
                }
            }
        }
        i = i + 1;
    }
    proof {
        assert(lists@.take(lists@.len() as int) =~= lists@);
    }
    out
}

/// Joins the per-source results: if any source failed, the aggregation
/// fails as a whole with the first error in source order; on full success
/// the lists merge into one deduplicated set of identifiers.
#[verifier::loop_isolation(false)]
pub fn aggregate_results(results: Vec<Result<Vec<ContentId>, FetchError>>) -> (r: Result<
    Vec<ContentId>,
    FetchError,
>)
    ensures
        all_ok(results@) <==> r is Ok,
        !all_ok(results@) ==> r->Err_0 == first_error(results@),
        r matches Ok(v) ==> (forall|i: int, j: int|
            0 <= i < j < v@.len() ==> (#[trigger] v@[i])@ != (#[trigger] v@[j])@),
        r matches Ok(v) ==> (forall|x: Seq<u8>|
            #[trigger] cids_have(v@, x) <==> ok_results_have(results@, x)),
{
    let ghost full = results@;
    let mut rest = results;
    let total = rest.len();
    let mut lists: Vec<Vec<ContentId>> = Vec::new();
    let mut taken: usize = 0;
    while rest.len() > 0
        invariant
            full.len() == total,
            taken + rest@.len() == full.len(),
            rest@ == full.skip(taken as int),
            lists@.len() == taken,
            forall|k: int| 0 <= k < taken ==> (#[trigger] full[k]) is Ok,
            forall|k: int| 0 <= k < taken ==> (#[trigger] lists@[k]) == full[k]->Ok_0,
        decreases rest@.len(),
    {
        let ghost taken0 = taken as int;
        let x = rest.remove(0);
        proof {
            assert(full.skip(taken0)[0] == full[taken0]);
            assert(full.skip(taken0).skip(1) =~= full.skip(taken0 + 1));
        }
        match x {
            Ok(v) => {
                lists.push(v);
                taken = taken + 1;
            },
            Err(e) => {
                proof {
                    lemma_first_error_at(full, taken0);
                    assert(!all_ok(full)) by {
                        assert(full[taken0] is Err);
                    }
                }
                return Err(e);
            },
        }
    }
    proof {
        assert(all_ok(full));
        assert(lists@.len() == full.len());
    }
    let merged = merge_pins(&lists);
    proof {
        assert forall|x: Seq<u8>| #[trigger] lists_have(lists@, x) implies ok_results_have(
            full,
            x,
        ) by {
            let k = choose|k: int| 0 <= k < lists@.len() && cids_have((#[trigger] lists@[k])@, x);
            assert(full[k] is Ok && cids_have(full[k]->Ok_0@, x));
        }
        assert forall|x: Seq<u8>| #[trigger] ok_results_have(full, x) implies lists_have(
            lists@,
            x,
        ) by {
            let k = choose|k: int|
                0 <= k < full.len() && (#[trigger] full[k]) is Ok && cids_have(full[k]->Ok_0@, x);
            assert(lists@[k] == full[k]->Ok_0);
            assert(cids_have(lists@[k]@, x));
        }
    }
    Ok(merged)
}

} // verus!
