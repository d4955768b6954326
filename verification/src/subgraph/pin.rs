//! Paginated pin fetching from one registry: page requests, page decoding
//! and the pagination state.

use vstd::prelude::*;
use crate::ipfs::ContentId;
use crate::ipfs::decode_hash;
use crate::ipfs::spec_decode_hash;

verus! {

/// How many pin rows one page request asks for.
pub const PAGE_SIZE: u64 = 500;

/// The variables of one pin page request: the author address filter and the
/// first/skip window of the page.
pub struct PinQuery {
    pub ids: Vec<String>,
    pub first: u64,
    pub skip: u64,
}

/// The views of a page of raw hash strings.
pub open spec fn page_views(page: Seq<String>) -> Seq<Seq<char>> {
    page.map_values(|s: String| s@)
}

/// The content identifier bytes of one page of raw hash strings, in order,
/// dropping every string that does not decode.
pub open spec fn spec_decode_page(page: Seq<Seq<char>>) -> Seq<Seq<u8>>
    decreases page.len(),
{
    if page.len() == 0 {
        Seq::empty()
    } else {
        spec_decode_page(page.drop_last()) + (match spec_decode_hash(page.last()) {
            Some(b) => seq![b],
            None => Seq::empty(),
        })
    }
}

/// The byte views of decoded identifiers.
pub open spec fn cid_views(cids: Seq<ContentId>) -> Seq<Seq<u8>> {
    cids.map_values(|c: ContentId| c@)
}

/// Decodes one page of raw hash strings. A record that fails base58 or
/// multihash decoding is dropped on its own; the rest stay in order.
#[verifier::loop_isolation(false)]
pub fn decode_pin_page(page: &Vec<String>) -> (r: Vec<ContentId>)
    ensures
        cid_views(r@) == spec_decode_page(page_views(page@)),
        forall|i: int| 0 <= i < r@.len() ==> (#[trigger] r@[i]).wf(),
{
    let mut out: Vec<ContentId> = Vec::new();
    let mut i: usize = 0;
    while i < page.len()
        invariant
            i <= page.len(),
            cid_views(out@) == spec_decode_page(page_views(page@.take(i as int))),
            forall|k: int| 0 <= k < out@.len() ==> (#[trigger] out@[k]).wf(),
        decreases page.len() - i,
    {
        proof {
            assert(page_views(page@.take(i + 1)).drop_last() =~= page_views(page@.take(i as int)));
            assert(page_views(page@.take(i + 1)).last() == page@[i as int]@);
        }
        let ghost out0 = out@;
        match decode_hash(page[i].as_str()) {
            Some(c) => {
                out.push(c);
                proof {
                    assert(cid_views(out@) =~= cid_views(out0) + seq![out@.last()@]);
                }
            },
            None => {
                proof {
                    assert(spec_decode_page(page_views(page@.take(i + 1))) =~= spec_decode_page(
                        page_views(page@.take(i as int)),
                    ));
                }
            },
        }
        i = i + 1;
    }
    proof {
        assert(page@.take(page@.len() as int) =~= page@);
    }
    out
}

/// The pagination state of one source's pin fetch: the skip offset of the
/// next page, the identifiers gathered so far, and whether the terminating
/// empty page has been seen.
pub struct PinFetch {
    pub skip: u64,
    pub done: bool,
    pub pins: Vec<ContentId>,
}

impl PinFetch {
    /// A fresh fetch: nothing gathered, the first page at offset zero.
    pub fn new() -> (r: PinFetch)
        ensures
            r.skip == 0,
            !r.done,
            r.pins@.len() == 0,
    {
        PinFetch { skip: 0, done: false, pins: Vec::new() }
    }

    /// The request variables for the page at the current offset.
    pub fn next_query(&self, ids: Vec<String>) -> (q: PinQuery)
        ensures
            q.ids == ids,
            q.first == PAGE_SIZE,
            q.skip == self.skip,
    {
        PinQuery { ids, first: PAGE_SIZE, skip: self.skip }
    }

    /// Feeds the raw hash strings of one page. A page with no raw entries at
    /// all ends the pagination; any other page is decoded, its identifiers
    /// are appended, and the offset advances by one page size, whether or
    /// not any of its entries decoded.
    pub fn feed_page(&mut self, page: &Vec<String>)
        requires
            !old(self).done,
            old(self).skip <= u64::MAX - PAGE_SIZE,
        ensures
            page@.len() == 0 ==> final(self).done,
            page@.len() == 0 ==> final(self).skip == old(self).skip,
            page@.len() == 0 ==> final(self).pins == old(self).pins,
            page@.len() > 0 ==> !final(self).done,
            page@.len() > 0 ==> final(self).skip == old(self).skip + PAGE_SIZE,
            page@.len() > 0 ==> cid_views(final(self).pins@) == cid_views(old(self).pins@)
                + spec_decode_page(page_views(page@)),
    {
        if page.len() == 0 {
            self.done = true;
        } else {
            let ghost pins0 = self.pins@;
            let mut decoded = decode_pin_page(page);
            let ghost decoded_v = decoded@;
            self.pins.append(&mut decoded);
            self.skip = self.skip + PAGE_SIZE;
            proof {
                assert(self.pins@ == pins0 + decoded_v);
                assert(cid_views(pins0 + decoded_v) =~= cid_views(pins0) + cid_views(decoded_v));
            }
        }
    }
}

} // verus!
