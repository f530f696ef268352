//! Speed up searches with an in-memory index: one blob header scan
//! records each blob's offset and kind, and the first decode of a data
//! blob records the id ranges of its elements.

use vstd::prelude::*;
use crate::blob::{
    BlobReader, BlobType, ByteOffset, SpecBlobRead, SpecFrame, spec_payload_ok, spec_read_blob,
    spec_read_frame,
};
use crate::block::PrimitiveBlock;
use crate::delta::delta_decoded;
use crate::dense::{dense_len, dense_msg_of};
use crate::elements::{
    Element, SpecElement, Way, or_zero_i64, spec_dense_element_at, spec_element_of,
};
use crate::error::Error;
use crate::osmformat;
use crate::osmformat::{SpecPrimitiveBlock, SpecPrimitiveGroup, SpecWay};
use crate::reader::ElementHandler;

verus! {

/// The kind of a blob, as its header declares it.
#[derive(Clone, Copy, Debug, PartialEq, Eq, Structural)]
pub enum SimpleBlobType {
    /// A header blob.
    Header,
    /// A data blob (a `PrimitiveBlock`).
    Primitive,
    /// A blob of an unknown type; skipped in every scan.
    Unknown,
}

/// Whether a blob is known to hold elements of some kind.
#[derive(Clone, Copy, Debug, PartialEq, Eq, Structural)]
pub enum ElementsAvailable {
    /// The blob holds at least one such element.
    Yes,
    /// The blob holds none.
    No,
    /// The blob has not been decoded yet.
    Unknown,
}

/// An ordered set of element ids, kept as a strictly sorted vector.
pub struct IdSet {
    items: Vec<i64>,
}

/// Strictly ascending: sorted with no duplicates.
pub open spec fn strictly_sorted(s: Seq<i64>) -> bool {
    forall|i: int, j: int| 0 <= i < j < s.len() ==> s[i] < s[j]
}

impl View for IdSet {
    type V = Seq<i64>;

    closed spec fn view(&self) -> Seq<i64> {
        self.items@
    }
}

impl IdSet {
    /// The representation is strictly sorted; every constructor
    /// establishes this and every method keeps it.
    pub open spec fn wf(self) -> bool {
        strictly_sorted(self@)
    }

    /// The empty set.
    pub fn new() -> (r: IdSet)
        ensures
            r@ == Seq::<i64>::empty(),
            r.wf(),
    {
        IdSet { items: Vec::new() }
    }

    /// How many ids the set holds.
    pub fn len(&self) -> (r: usize)
        ensures
            r == self@.len(),
    {
        self.items.len()
    }

    /// Whether the set holds `v`, by binary search on the sorted
    /// representation.
    pub fn contains(&self, v: i64) -> (r: bool)
        requires
            self.wf(),
        ensures
            r == self@.contains(v),
    {
        let n = self.items.len();
        let mut lo: usize = 0;
        let mut hi: usize = n;
        while lo < hi
            invariant
                lo <= hi <= n == self@.len(),
                strictly_sorted(self@),
                forall|k: int| 0 <= k < lo ==> self@[k] < v,
                forall|k: int| hi <= k < n ==> self@[k] > v,
            decreases hi - lo,
        {
            let mid = lo + (hi - lo) / 2;
            let x = self.items[mid];
            if x < v {
                lo = mid + 1;
            } else if x > v {
                hi = mid;
            } else {
                proof {
                    assert(self@[mid as int] == v);
                    assert(self@.contains(v));
                }
                return true;
            }
        }
        proof {
            if self@.contains(v) {
                let k = choose|k: int| 0 <= k < self@.len() && self@[k] == v;
                assert(false);
            }
        }
        false
    }

    /// Add `v`: afterwards the set holds exactly the old ids and `v`.
    /// The insertion point is found by binary search.
    pub fn insert(&mut self, v: i64)
        requires
            old(self).wf(),
        ensures
            final(self).wf(),
            final(self)@.contains(v),
            forall|x: i64| #[trigger] final(self)@.contains(x) <==> old(self)@.contains(x) || x
                == v,
    {
        let n = self.items.len();
        let mut lo: usize = 0;
        let mut hi: usize = n;
        while lo < hi
            invariant
                lo <= hi <= n == self.items@.len(),
                strictly_sorted(self.items@),
                forall|k: int| 0 <= k < lo ==> self.items@[k] < v,
                forall|k: int| hi <= k < n ==> self.items@[k] >= v,
            decreases hi - lo,
        {
            let mid = lo + (hi - lo) / 2;
            if self.items[mid] < v {
                lo = mid + 1;
            } else {
                hi = mid;
            }
        }
        let i = lo;
        if i < n && self.items[i] == v {
            proof {
                assert(self.items@.contains(v));
            }
            return;
        }
        let ghost olds = self.items@;
        self.items.insert(i, v);
        proof {
            assert(self.items@ == olds.insert(i as int, v));
            assert(forall|k: int|
                0 <= k < self.items@.len() ==> self.items@[k] == (if k < i {
                    olds[k]
                } else if k == i {
                    v
                } else {
                    olds[k - 1]
                }));
            assert forall|a: int, b: int|
                0 <= a < b < self.items@.len() implies self.items@[a] < self.items@[b] by {
                if a < i && b > i {
                    assert(olds[a] < v);
                    assert(olds[b - 1] >= olds[i as int]);
                } else if a == i && b > i {
                    assert(olds[b - 1] >= olds[i as int]);
                }
            };
            assert(self.items@.contains(v)) by {
                assert(self.items@[i as int] == v);
            };
            assert forall|x: i64| #[trigger] self.items@.contains(x) implies olds.contains(x) || x
                == v by {
                let k = choose|k: int| 0 <= k < self.items@.len() && self.items@[k] == x;
                if k < i {
                    assert(olds[k] == x);
                } else if k > i {
                    assert(olds[k - 1] == x);
                }
            };
            assert forall|x: i64| olds.contains(x) implies self.items@.contains(x) by {
                let k = choose|k: int| 0 <= k < olds.len() && olds[k] == x;
                if k < i {
                    assert(self.items@[k] == x);
                } else {
                    assert(self.items@[k + 1] == x);
                }
            };
        }
    }
}

/// Whether the set holds at least one id inside the inclusive range.
pub fn range_included(lo: i64, hi: i64, node_ids: &IdSet) -> (r: bool)
    ensures
        r == exists|x: i64| lo <= x <= hi && #[trigger] node_ids@.contains(x),
{
    let n = node_ids.len();
    let mut i: usize = 0;
    while i < n
        invariant
            i <= n == node_ids@.len(),
            forall|k: int| 0 <= k < i ==> !(lo <= #[trigger] node_ids@[k] <= hi),
        decreases n - i,
    {
        let v = node_ids.get(i);
        if lo <= v && v <= hi {
            proof {
                assert(node_ids@.contains(v));
            }
            return true;
        }
        i += 1;
    }
    proof {
        assert forall|x: i64| lo <= x <= hi implies !node_ids@.contains(x) by {
            if node_ids@.contains(x) {
                let k = choose|k: int| 0 <= k < node_ids@.len() && node_ids@[k] == x;
            }
        };
    }
    false
}

impl IdSet {
    /// The id at one position of the sorted representation.
    pub fn get(&self, i: usize) -> (r: i64)
        requires
            i < self@.len(),
        ensures
            r == self@[i as int],
    {
        self.items[i]
    }
}

/// The minimum and maximum element id of each kind seen in one blob.
#[derive(Clone, Copy, Debug)]
pub struct IdRanges {
    /// Inclusive node id range, when the blob holds nodes.
    pub node_ids: Option<(i64, i64)>,
    /// Inclusive way id range, when the blob holds ways.
    pub way_ids: Option<(i64, i64)>,
    /// Inclusive relation id range, when the blob holds relations.
    pub relation_ids: Option<(i64, i64)>,
}

/// What the index knows about one blob.
#[derive(Clone, Copy, Debug)]
pub struct BlobInfo {
    /// Where the blob's record begins.
    pub offset: ByteOffset,
    /// The blob's kind, from its header.
    pub blob_type: SimpleBlobType,
    /// Element id ranges, filled in the first time the blob is decoded.
    pub id_ranges: Option<IdRanges>,
}

impl BlobInfo {
    /// Is there at least one node in this blob?
    pub fn nodes_available(&self) -> (r: ElementsAvailable)
        ensures
            r == match self.id_ranges {
                Some(ranges) => if ranges.node_ids is Some {
                    ElementsAvailable::Yes
                } else {
                    ElementsAvailable::No
                },
                None => ElementsAvailable::Unknown,
            },
    {
        match &self.id_ranges {
            Some(ranges) => {
                if ranges.node_ids.is_some() {
                    ElementsAvailable::Yes
                } else {
                    ElementsAvailable::No
                }
            }
            None => ElementsAvailable::Unknown,
        }
    }

    /// Is there at least one way in this blob?
    pub fn ways_available(&self) -> (r: ElementsAvailable)
        ensures
            r == match self.id_ranges {
                Some(ranges) => if ranges.way_ids is Some {
                    ElementsAvailable::Yes
                } else {
                    ElementsAvailable::No
                },
                None => ElementsAvailable::Unknown,
            },
    {
        match &self.id_ranges {
            Some(ranges) => {
                if ranges.way_ids.is_some() {
                    ElementsAvailable::Yes
                } else {
                    ElementsAvailable::No
                }
            }
            None => ElementsAvailable::Unknown,
        }
    }

    /// The blob's node id range, when it is known to intersect the
    /// given set: the second pass decodes exactly these blobs.
    pub fn node_range_included(&self, node_ids: &IdSet) -> (r: Option<(i64, i64)>)
        ensures
            match r {
                Some(range) => {
                    &&& self.id_ranges matches Some(ranges) && ranges.node_ids == Some(range)
                    &&& exists|x: i64|
                        range.0 <= x <= range.1 && #[trigger] node_ids@.contains(x)
                },
                None => match self.id_ranges {
                    Some(ranges) => match ranges.node_ids {
                        Some(range) => !exists|x: i64|
                            range.0 <= x <= range.1 && #[trigger] node_ids@.contains(x),
                        None => true,
                    },
                    None => true,
                },
            },
    {
        match &self.id_ranges {
            Some(ranges) => match ranges.node_ids {
                Some((lo, hi)) => {
                    if range_included(lo, hi, node_ids) {
                        Some((lo, hi))
                    } else {
                        None
                    }
                }
                None => None,
            },
            None => None,
        }
    }
}

/// The kind a blob header's type string declares.
pub open spec fn spec_kind_of(t: Seq<char>) -> SimpleBlobType {
    if t == "OSMHeader"@ {
        SimpleBlobType::Header
    } else if t == "OSMData"@ {
        SimpleBlobType::Primitive
    } else {
        SimpleBlobType::Unknown
    }
}

/// The index entries a header scan of `d` from `i` yields: one per
/// record, in file order, each with the record's offset and kind and
/// with unknown ranges.  The scan stops at the first malformed frame.
pub open spec fn spec_scan_entries(d: Seq<u8>, i: int) -> Seq<BlobInfo>
    decreases d.len() - i,
{
    if i < 0 || i > d.len() {
        Seq::empty()
    } else {
        match spec_read_frame(d, i) {
            SpecFrame::Eof => Seq::empty(),
            SpecFrame::Fail(_) => Seq::empty(),
            SpecFrame::Frame { header, body_start, next } => if next <= i || next > d.len() {
                Seq::empty()
            } else {
                seq![
                    BlobInfo {
                        offset: ByteOffset(i as u64),
                        blob_type: spec_kind_of(header.type_),
                        id_ranges: None,
                    },
                ] + spec_scan_entries(d, next)
            },
        }
    }
}

/// Whether a header scan of the stream from `i` reaches a clean end.
pub open spec fn spec_frames_clean(d: Seq<u8>, i: int) -> bool
    decreases d.len() - i,
{
    if i < 0 || i > d.len() {
        false
    } else {
        match spec_read_frame(d, i) {
            SpecFrame::Eof => true,
            SpecFrame::Fail(_) => false,
            SpecFrame::Frame { header, body_start, next } => if next <= i || next > d.len() {
                false
            } else {
                spec_frames_clean(d, next)
            },
        }
    }
}

/// The decoded primitive block of the record at `off`, when the record
/// reads and its payload decompresses and parses.
#[verifier::opaque]
pub open spec fn spec_block_at(d: Seq<u8>, off: int) -> Option<SpecPrimitiveBlock> {
    match spec_read_blob(d, off) {
        SpecBlobRead::Read { header, blob, next } => match spec_payload_ok(blob) {
            Some(dd) => osmformat::spec_parse_primitiveblock(dd, 0, dd.len() as int),
            None => None,
        },
        _ => None,
    }
}

/// The node ids of one group: sparse nodes first, then the dense column,
/// in the order the id-range scan reads them.
pub open spec fn group_node_ids(g: SpecPrimitiveGroup) -> Seq<i64> {
    Seq::new(g.nodes.len(), |i: int| or_zero_i64(g.nodes[i].id)) + delta_decoded(
        dense_msg_of(g.dense).id,
    ).take(dense_len(dense_msg_of(g.dense)))
}

/// The way ids of one group, in order.
pub open spec fn group_way_ids(g: SpecPrimitiveGroup) -> Seq<i64> {
    Seq::new(g.ways.len(), |i: int| or_zero_i64(g.ways[i].id))
}

/// The relation ids of one group, in order.
pub open spec fn group_relation_ids(g: SpecPrimitiveGroup) -> Seq<i64> {
    Seq::new(g.relations.len(), |i: int| or_zero_i64(g.relations[i].id))
}

/// The node ids of a list of groups, concatenated.
pub open spec fn groups_node_ids(gs: Seq<SpecPrimitiveGroup>) -> Seq<i64>
    decreases gs.len(),
{
    if gs.len() == 0 {
        Seq::empty()
    } else {
        groups_node_ids(gs.drop_last()) + group_node_ids(gs.last())
    }
}

/// The way ids of a list of groups, concatenated.
pub open spec fn groups_way_ids(gs: Seq<SpecPrimitiveGroup>) -> Seq<i64>
    decreases gs.len(),
{
    if gs.len() == 0 {
        Seq::empty()
    } else {
        groups_way_ids(gs.drop_last()) + group_way_ids(gs.last())
    }
}

/// The relation ids of a list of groups, concatenated.
pub open spec fn groups_relation_ids(gs: Seq<SpecPrimitiveGroup>) -> Seq<i64>
    decreases gs.len(),
{
    if gs.len() == 0 {
        Seq::empty()
    } else {
        groups_relation_ids(gs.drop_last()) + group_relation_ids(gs.last())
    }
}

/// All node ids of a block, in scan order.
pub open spec fn block_node_ids(b: SpecPrimitiveBlock) -> Seq<i64> {
    groups_node_ids(b.primitivegroup)
}

/// All way ids of a block, in scan order.
pub open spec fn block_way_ids(b: SpecPrimitiveBlock) -> Seq<i64> {
    groups_way_ids(b.primitivegroup)
}

/// All relation ids of a block, in scan order.
pub open spec fn block_relation_ids(b: SpecPrimitiveBlock) -> Seq<i64> {
    groups_relation_ids(b.primitivegroup)
}

/// The inclusive range of a list of ids, folded in order: `None`
/// exactly when the list is empty.
pub open spec fn id_range_of(s: Seq<i64>) -> Option<(i64, i64)>
    decreases s.len(),
{
    if s.len() == 0 {
        None
    } else {
        match id_range_of(s.drop_last()) {
            None => Some((s.last(), s.last())),
            Some(r) => Some(
                (
                    if s.last() < r.0 {
                        s.last()
                    } else {
                        r.0
                    },
                    if s.last() > r.1 {
                        s.last()
                    } else {
                        r.1
                    },
                ),
            ),
        }
    }
}

/// The id ranges the first decode of a block records.
pub open spec fn spec_ranges_of(b: SpecPrimitiveBlock) -> IdRanges {
    IdRanges {
        node_ids: id_range_of(block_node_ids(b)),
        way_ids: id_range_of(block_way_ids(b)),
        relation_ids: id_range_of(block_relation_ids(b)),
    }
}

/// A pair of optional bounds as one optional range.
pub open spec fn opt_range(lo: Option<i64>, hi: Option<i64>) -> Option<(i64, i64)> {
    match (lo, hi) {
        (Some(a), Some(b)) => Some((a, b)),
        _ => None,
    }
}

/// How the node ids of a list of groups grow with one more group.
pub proof fn lemma_groups_node_ids_take_succ(gs: Seq<SpecPrimitiveGroup>, k: int)
    requires
        0 <= k < gs.len(),
    ensures
        groups_node_ids(gs.take(k + 1)) == groups_node_ids(gs.take(k)) + group_node_ids(gs[k]),
{
    assert(gs.take(k + 1).drop_last() =~= gs.take(k));
    assert(gs.take(k + 1).last() == gs[k]);
}

/// How the way ids of a list of groups grow with one more group.
pub proof fn lemma_groups_way_ids_take_succ(gs: Seq<SpecPrimitiveGroup>, k: int)
    requires
        0 <= k < gs.len(),
    ensures
        groups_way_ids(gs.take(k + 1)) == groups_way_ids(gs.take(k)) + group_way_ids(gs[k]),
{
    assert(gs.take(k + 1).drop_last() =~= gs.take(k));
    assert(gs.take(k + 1).last() == gs[k]);
}

/// How the relation ids of a list of groups grow with one more group.
pub proof fn lemma_groups_relation_ids_take_succ(gs: Seq<SpecPrimitiveGroup>, k: int)
    requires
        0 <= k < gs.len(),
    ensures
        groups_relation_ids(gs.take(k + 1)) == groups_relation_ids(gs.take(k))
            + group_relation_ids(gs[k]),
{
    assert(gs.take(k + 1).drop_last() =~= gs.take(k));
    assert(gs.take(k + 1).last() == gs[k]);
}

/// An id range is `Some` exactly when ids exist, and then bounds each of
/// them, tightly at both ends.
pub proof fn lemma_id_range_bounds(s: Seq<i64>)
    ensures
        id_range_of(s) is None <==> s.len() == 0,
        id_range_of(s) matches Some(r) ==> forall|k: int| 0 <= k < s.len() ==> r.0 <= #[trigger] s[k] <= r.1,
    decreases s.len(),
{
    if s.len() > 0 {
        lemma_id_range_bounds(s.drop_last());
        if id_range_of(s) is Some {
            let r = id_range_of(s)->Some_0;
            assert forall|k: int| 0 <= k < s.len() implies r.0 <= #[trigger] s[k] <= r.1 by {
                if k < s.len() - 1 {
                    assert(s[k] == s.drop_last()[k]);
                } else {
                    assert(s[k] == s.last());
                }
            };
        }
    }
}

/// Whether an index entry says of its record only what the stream
/// shows: the scan's offset and kind, and, where ranges are recorded,
/// those of the block decoded at that offset.
pub open spec fn entry_matches(d: Seq<u8>, base: BlobInfo, e: BlobInfo) -> bool {
    &&& e.offset == base.offset
    &&& e.blob_type == base.blob_type
    &&& match e.id_ranges {
        None => true,
        Some(rg) => spec_block_at(d, e.offset.0 as int) matches Some(b) && rg == spec_ranges_of(b),
    }
}

/// A reader that filters elements and walks their dependencies with the
/// help of a per-blob index.
pub struct IndexedReader {
    reader: BlobReader,
    index: Vec<BlobInfo>,
}

/// Mathematical image of an `IndexedReader`: the bytes and the index.
pub struct SpecIndexedReader {
    /// The stream's bytes.
    pub data: Seq<u8>,
    /// The index entries built so far (empty until the first scan).
    pub index: Seq<BlobInfo>,
}

impl View for IndexedReader {
    type V = SpecIndexedReader;

    closed spec fn view(&self) -> SpecIndexedReader {
        SpecIndexedReader { data: self.reader@.data, index: self.index@ }
    }
}

impl IndexedReader {
    /// The reader's invariant: the underlying reader is seekable and
    /// live, and a built index describes the stream record by record.
    pub closed spec fn wf(self) -> bool {
        &&& self.reader@.seekable
        &&& self.reader@.ok
        &&& (self.index@.len() > 0 ==> {
            &&& spec_frames_clean(self.reader@.data, 0)
            &&& self.index@.len() == spec_scan_entries(self.reader@.data, 0).len()
            &&& forall|k: int|
                0 <= k < self.index@.len() ==> entry_matches(
                    self.reader@.data,
                    spec_scan_entries(self.reader@.data, 0)[k],
                    #[trigger] self.index@[k],
                )
            &&& forall|k: int|
                0 <= k < self.index@.len() && (#[trigger] self.index@[k]).blob_type
                    != SimpleBlobType::Primitive ==> self.index@[k].id_ranges is None
        })
    }
}

/// A predicate over ways, applied during the filtering pass.  The
/// predicate itself is pure: whatever state the filter keeps, `keep`
/// answers by `spec_keep` and leaves `spec_keep` unchanged.
pub trait WayFilter {
    /// What the filter tests: the way, seen against its block.  The
    /// default keeps every way; a filter whose decisions verified
    /// callers reason about overrides it.
    open spec fn spec_keep(&self, b: SpecPrimitiveBlock, w: SpecWay) -> bool {
        true
    }

    /// Whether the way should be kept.
    fn keep(&mut self, way: &Way<'_>) -> (r: bool)
        ensures
            r == old(self).spec_keep(way@.0, way@.1),
            forall|b: SpecPrimitiveBlock, w: SpecWay|
                final(self).spec_keep(b, w) == old(self).spec_keep(b, w),
    ;
}

/// The predicate of a `WayFilter` as a spec-level function value.
pub open spec fn keep_of<F: WayFilter>(f: F) -> spec_fn(SpecPrimitiveBlock, SpecWay) -> bool {
    |b: SpecPrimitiveBlock, w: SpecWay| f.spec_keep(b, w)
}

/// The kept ways of a way list, as elements, in order.
pub open spec fn kept_ways_of(
    b: SpecPrimitiveBlock,
    ways: Seq<SpecWay>,
    keep: spec_fn(SpecPrimitiveBlock, SpecWay) -> bool,
) -> Seq<SpecElement>
    decreases ways.len(),
{
    if ways.len() == 0 {
        Seq::empty()
    } else {
        kept_ways_of(b, ways.drop_last(), keep) + (if keep(b, ways.last()) {
            seq![SpecElement::Way(b, ways.last())]
        } else {
            Seq::empty()
        })
    }
}

/// The kept ways of a list of groups, concatenated.
pub open spec fn groups_kept_ways(
    b: SpecPrimitiveBlock,
    gs: Seq<SpecPrimitiveGroup>,
    keep: spec_fn(SpecPrimitiveBlock, SpecWay) -> bool,
) -> Seq<SpecElement>
    decreases gs.len(),
{
    if gs.len() == 0 {
        Seq::empty()
    } else {
        groups_kept_ways(b, gs.drop_last(), keep) + kept_ways_of(b, gs.last().ways, keep)
    }
}

/// The kept ways of one block.
pub open spec fn block_kept_ways(
    b: SpecPrimitiveBlock,
    keep: spec_fn(SpecPrimitiveBlock, SpecWay) -> bool,
) -> Seq<SpecElement> {
    groups_kept_ways(b, b.primitivegroup, keep)
}

/// The kept ways of one scanned record: those of its decoded block for
/// a data record, nothing otherwise.
pub open spec fn entry_kept_ways(
    d: Seq<u8>,
    e: BlobInfo,
    keep: spec_fn(SpecPrimitiveBlock, SpecWay) -> bool,
) -> Seq<SpecElement> {
    if e.blob_type == SimpleBlobType::Primitive {
        match spec_block_at(d, e.offset.0 as int) {
            Some(b) => block_kept_ways(b, keep),
            None => Seq::empty(),
        }
    } else {
        Seq::empty()
    }
}

/// The kept ways of a list of scanned records, in file order.
pub open spec fn entries_kept_ways(
    d: Seq<u8>,
    es: Seq<BlobInfo>,
    keep: spec_fn(SpecPrimitiveBlock, SpecWay) -> bool,
) -> Seq<SpecElement>
    decreases es.len(),
{
    if es.len() == 0 {
        Seq::empty()
    } else {
        entries_kept_ways(d, es.drop_last(), keep) + entry_kept_ways(d, es.last(), keep)
    }
}

/// Whether some way element in the list references node id `x` through
/// its delta-decoded references.
pub open spec fn ref_in_kept(ws: Seq<SpecElement>, x: i64) -> bool {
    exists|j: int|
        0 <= j < ws.len() && ((#[trigger] ws[j]) matches SpecElement::Way(b, w) && delta_decoded(
            w.refs,
        ).contains(x))
}

/// The node-id predicate of the dependency pass: referenced by a kept
/// way somewhere in the stream.
pub open spec fn ref_pred(
    d: Seq<u8>,
    keep: spec_fn(SpecPrimitiveBlock, SpecWay) -> bool,
) -> spec_fn(i64) -> bool {
    |x: i64| ref_in_kept(entries_kept_ways(d, spec_scan_entries(d, 0), keep), x)
}

/// The predicate that selects every node.
pub open spec fn true_pred() -> spec_fn(i64) -> bool {
    |x: i64| true
}

/// The sparse nodes of a list whose id satisfies `p`, as elements.
pub open spec fn sel_sparse(
    b: SpecPrimitiveBlock,
    nodes: Seq<osmformat::SpecNode>,
    p: spec_fn(i64) -> bool,
) -> Seq<SpecElement>
    decreases nodes.len(),
{
    if nodes.len() == 0 {
        Seq::empty()
    } else {
        sel_sparse(b, nodes.drop_last(), p) + (if p(or_zero_i64(nodes.last().id)) {
            seq![SpecElement::Node(b, nodes.last())]
        } else {
            Seq::empty()
        })
    }
}

/// The first `n` dense nodes whose id satisfies `p`, as elements.
pub open spec fn sel_dense_upto(
    b: SpecPrimitiveBlock,
    dn: osmformat::SpecDenseNodes,
    p: spec_fn(i64) -> bool,
    n: int,
) -> Seq<SpecElement>
    decreases n,
{
    if n <= 0 {
        Seq::empty()
    } else {
        sel_dense_upto(b, dn, p, n - 1) + (if p(delta_decoded(dn.id)[n - 1]) {
            seq![spec_dense_element_at(b, dn, n - 1)]
        } else {
            Seq::empty()
        })
    }
}

/// The nodes of one group selected by `p`: sparse first, then dense.
pub open spec fn group_sel_nodes(
    b: SpecPrimitiveBlock,
    g: SpecPrimitiveGroup,
    p: spec_fn(i64) -> bool,
) -> Seq<SpecElement> {
    sel_sparse(b, g.nodes, p) + sel_dense_upto(
        b,
        dense_msg_of(g.dense),
        p,
        dense_len(dense_msg_of(g.dense)),
    )
}

/// The selected nodes of a list of groups, concatenated.
pub open spec fn groups_sel_nodes(
    b: SpecPrimitiveBlock,
    gs: Seq<SpecPrimitiveGroup>,
    p: spec_fn(i64) -> bool,
) -> Seq<SpecElement>
    decreases gs.len(),
{
    if gs.len() == 0 {
        Seq::empty()
    } else {
        groups_sel_nodes(b, gs.drop_last(), p) + group_sel_nodes(b, gs.last(), p)
    }
}

/// The selected nodes of one block.
pub open spec fn block_sel_nodes(b: SpecPrimitiveBlock, p: spec_fn(i64) -> bool) -> Seq<
    SpecElement,
> {
    groups_sel_nodes(b, b.primitivegroup, p)
}

/// The selected nodes of one scanned record.
pub open spec fn entry_sel_nodes(d: Seq<u8>, e: BlobInfo, p: spec_fn(i64) -> bool) -> Seq<
    SpecElement,
> {
    if e.blob_type == SimpleBlobType::Primitive {
        match spec_block_at(d, e.offset.0 as int) {
            Some(b) => block_sel_nodes(b, p),
            None => Seq::empty(),
        }
    } else {
        Seq::empty()
    }
}

/// The selected nodes of a list of scanned records, in file order.
pub open spec fn entries_sel_nodes(d: Seq<u8>, es: Seq<BlobInfo>, p: spec_fn(i64) -> bool) -> Seq<
    SpecElement,
>
    decreases es.len(),
{
    if es.len() == 0 {
        Seq::empty()
    } else {
        entries_sel_nodes(d, es.drop_last(), p) + entry_sel_nodes(d, es.last(), p)
    }
}

/// Whether every data record of a frame-clean stream decodes.
pub open spec fn spec_data_clean(d: Seq<u8>) -> bool {
    &&& spec_frames_clean(d, 0)
    &&& forall|k: int|
        0 <= k < spec_scan_entries(d, 0).len() && (#[trigger] spec_scan_entries(d, 0)[k]).blob_type
            == SimpleBlobType::Primitive ==> spec_block_at(
            d,
            spec_scan_entries(d, 0)[k].offset.0 as int,
        ) is Some
}

/// How the kept ways of a list of records grow with one more record.
pub proof fn lemma_entries_kept_take_succ(
    d: Seq<u8>,
    es: Seq<BlobInfo>,
    keep: spec_fn(SpecPrimitiveBlock, SpecWay) -> bool,
    k: int,
)
    requires
        0 <= k < es.len(),
    ensures
        entries_kept_ways(d, es.take(k + 1), keep) == entries_kept_ways(d, es.take(k), keep)
            + entry_kept_ways(d, es[k], keep),
{
    assert(es.take(k + 1).drop_last() =~= es.take(k));
    assert(es.take(k + 1).last() == es[k]);
}

/// How the selected nodes of a list of records grow with one more
/// record.
pub proof fn lemma_entries_sel_take_succ(
    d: Seq<u8>,
    es: Seq<BlobInfo>,
    p: spec_fn(i64) -> bool,
    k: int,
)
    requires
        0 <= k < es.len(),
    ensures
        entries_sel_nodes(d, es.take(k + 1), p) == entries_sel_nodes(d, es.take(k), p)
            + entry_sel_nodes(d, es[k], p),
{
    assert(es.take(k + 1).drop_last() =~= es.take(k));
    assert(es.take(k + 1).last() == es[k]);
}

/// How the kept ways of a list of groups grow with one more group.
pub proof fn lemma_groups_kept_take_succ(
    b: SpecPrimitiveBlock,
    gs: Seq<SpecPrimitiveGroup>,
    keep: spec_fn(SpecPrimitiveBlock, SpecWay) -> bool,
    k: int,
)
    requires
        0 <= k < gs.len(),
    ensures
        groups_kept_ways(b, gs.take(k + 1), keep) == groups_kept_ways(b, gs.take(k), keep)
            + kept_ways_of(b, gs[k].ways, keep),
{
    assert(gs.take(k + 1).drop_last() =~= gs.take(k));
    assert(gs.take(k + 1).last() == gs[k]);
}

/// How the selected nodes of a list of groups grow with one more group.
pub proof fn lemma_groups_sel_take_succ(
    b: SpecPrimitiveBlock,
    gs: Seq<SpecPrimitiveGroup>,
    p: spec_fn(i64) -> bool,
    k: int,
)
    requires
        0 <= k < gs.len(),
    ensures
        groups_sel_nodes(b, gs.take(k + 1), p) == groups_sel_nodes(b, gs.take(k), p)
            + group_sel_nodes(b, gs[k], p),
{
    assert(gs.take(k + 1).drop_last() =~= gs.take(k));
    assert(gs.take(k + 1).last() == gs[k]);
}

/// Appending one element to a way list extends the reference test by
/// that way's references.
pub proof fn lemma_ref_in_push(ws: Seq<SpecElement>, e: SpecElement, x: i64)
    ensures
        ref_in_kept(ws.push(e), x) == (ref_in_kept(ws, x) || (e matches SpecElement::Way(b, w)
            && delta_decoded(w.refs).contains(x))),
{
    if ref_in_kept(ws, x) {
        let j = choose|j: int|
            0 <= j < ws.len() && ((#[trigger] ws[j]) matches SpecElement::Way(b, w)
                && delta_decoded(w.refs).contains(x));
        assert(ws.push(e)[j] == ws[j]);
        assert(ref_in_kept(ws.push(e), x));
    }
    if e matches SpecElement::Way(b, w) && delta_decoded(w.refs).contains(x) {
        assert(ws.push(e)[ws.len() as int] == e);
        assert(ref_in_kept(ws.push(e), x));
    }
    if ref_in_kept(ws.push(e), x) {
        let j = choose|j: int|
            0 <= j < ws.push(e).len() && ((#[trigger] ws.push(e)[j]) matches SpecElement::Way(
                b,
                w,
            ) && delta_decoded(w.refs).contains(x));
        if j < ws.len() {
            assert(ws[j] == ws.push(e)[j]);
            assert(ref_in_kept(ws, x));
        } else {
            assert(ws.push(e)[j] == e);
        }
    }
}

/// One more element of a prefix extends what the prefix contains by
/// exactly that element.
pub proof fn lemma_take_push_contains(s: Seq<i64>, pos: int, x: i64)
    requires
        0 <= pos < s.len(),
    ensures
        s.take(pos + 1).contains(x) == (s.take(pos).contains(x) || x == s[pos]),
{
    assert(s.take(pos + 1) =~= s.take(pos).push(s[pos]));
    if s.take(pos).contains(x) {
        let j = choose|j: int| 0 <= j < pos && s.take(pos)[j] == x;
        assert(s.take(pos + 1)[j] == x);
    }
    if x == s[pos] {
        assert(s.take(pos + 1)[pos] == x);
    }
    if s.take(pos + 1).contains(x) {
        let j = choose|j: int| 0 <= j < pos + 1 && (#[trigger] s.take(pos + 1)[j]) == x;
        if j < pos {
            assert(s.take(pos)[j] == x);
        }
    }
}

/// Seek to a record and decode its `PrimitiveBlock`: succeeds exactly
/// when the record reads and its payload decompresses and parses.
#[verifier::rlimit(100)]
#[verifier::spinoff_prover]
fn fetch_block(reader: &mut BlobReader, off: ByteOffset) -> (r: Result<PrimitiveBlock, Error>)
    requires
        old(reader)@.ok,
    ensures
        final(reader)@.data == old(reader)@.data,
        final(reader)@.seekable == old(reader)@.seekable,
        r matches Ok(b) ==> final(reader)@.ok && spec_block_at(old(reader)@.data, off.0 as int)
            == Some(b@),
        r is Err ==> spec_block_at(old(reader)@.data, off.0 as int) is None,
{
    proof {
        reveal(spec_block_at);
    }
    let blob = match reader.blob_from_offset(off) {
        Ok(b) => b,
        Err(e) => {
            return Err(e);
        }
    };
    match blob.to_primitiveblock() {
        Ok(b) => Ok(b),
        Err(e) => Err(e),
    }
}

/// Hand over the nodes of one block, sparse then dense per group,
/// keeping those the selection admits: every node when `all`, else
/// those whose id is in the set.
#[verifier::rlimit(100)]
#[verifier::spinoff_prover]
fn hand_selected_nodes<H: ElementHandler>(
    block: &PrimitiveBlock,
    all: bool,
    sel: &IdSet,
    handler: &mut H,
    Ghost(p): Ghost<spec_fn(i64) -> bool>,
)
    requires
        sel.wf(),
        forall|x: i64|
            #[trigger] p(x) == (if all {
                true
            } else {
                sel@.contains(x)
            }),
    ensures
        final(handler).log() == old(handler).log() + block_sel_nodes(block@, p),
{
    let ghost bb = block@;
    let ghost log0 = handler.log();
    let ghost gs = bb.primitivegroup;
    let groups = block.groups();
    let ng = groups.len();
    let mut gi: usize = 0;
    proof {
        assert(gs.take(0) =~= Seq::<SpecPrimitiveGroup>::empty());
        assert(log0 + groups_sel_nodes(bb, gs.take(0), p) =~= log0);
    }
    while gi < ng
        invariant
            gi <= ng == groups@.len(),
            ng == gs.len(),
            sel.wf(),
            forall|x: i64|
                #[trigger] p(x) == (if all {
                    true
                } else {
                    sel@.contains(x)
                }),
            forall|k: int| 0 <= k < ng ==> #[trigger] groups@[k]@ == (bb, gs[k]),
            handler.log() == log0 + groups_sel_nodes(bb, gs.take(gi as int), p),
        decreases ng - gi,
    {
        let ghost gv = gs[gi as int];
        let ghost pre_g = handler.log();
        let nodes = groups[gi].nodes();
        let nn = nodes.len();
        let mut ni: usize = 0;
        proof {
            assert(nodes@.len() == gv.nodes.len());
            assert(gv.nodes.take(0) =~= Seq::<osmformat::SpecNode>::empty());
            assert(pre_g + sel_sparse(bb, gv.nodes.take(0), p) =~= pre_g);
        }
        while ni < nn
            invariant
                ni <= nn == nodes@.len(),
                nn == gv.nodes.len(),
                sel.wf(),
                forall|x: i64|
                    #[trigger] p(x) == (if all {
                        true
                    } else {
                        sel@.contains(x)
                    }),
                forall|k: int| 0 <= k < nn ==> #[trigger] nodes@[k]@ == (bb, gv.nodes[k]),
                handler.log() == pre_g + sel_sparse(bb, gv.nodes.take(ni as int), p),
            decreases nn - ni,
        {
            let node = nodes[ni];
            let keep_it = if all {
                true
            } else {
                sel.contains(node.id())
            };
            proof {
                assert(keep_it == p(or_zero_i64(gv.nodes[ni as int].id)));
                assert(gv.nodes.take(ni + 1).drop_last() =~= gv.nodes.take(ni as int));
                assert(gv.nodes.take(ni + 1).last() == gv.nodes[ni as int]);
            }
            if keep_it {
                let e = Element::Node(node);
                handler.handle(&e);
            }
            proof {
                assert(handler.log() =~= pre_g + sel_sparse(bb, gv.nodes.take(ni + 1), p));
            }
            ni += 1;
        }
        let mut dense = groups[gi].dense_nodes();
        let ghost dn = dense.spec_view().1;
        let ghost pre_d = handler.log();
        proof {
            assert(gv.nodes.take(nn as int) =~= gv.nodes);
            assert(pre_d + sel_dense_upto(bb, dn, p, 0) =~= pre_d);
        }
        loop
            invariant
                dense.wf(),
                dense.spec_view().0 == bb,
                dense.spec_view().1 == dn,
                0 <= dense.spec_view().2 <= dense_len(dn),
                sel.wf(),
                forall|x: i64|
                    #[trigger] p(x) == (if all {
                        true
                    } else {
                        sel@.contains(x)
                    }),
                handler.log() == pre_d + sel_dense_upto(bb, dn, p, dense.spec_view().2),
            ensures
                handler.log() == pre_d + sel_dense_upto(bb, dn, p, dense_len(dn)),
            decreases dense_len(dn) - dense.spec_view().2 + 1,
        {
            let ghost pos = dense.spec_view().2;
            match dense.next() {
                Some(node) => {
                    let keep_it = if all {
                        true
                    } else {
                        sel.contains(node.node_id())
                    };
                    proof {
                        assert(keep_it == p(delta_decoded(dn.id)[pos]));
                    }
                    if keep_it {
                        let e = Element::DenseNode(node);
                        proof {
                            assert(spec_element_of(e) == spec_dense_element_at(bb, dn, pos));
                        }
                        handler.handle(&e);
                    }
                    proof {
                        assert(handler.log() =~= pre_d + sel_dense_upto(bb, dn, p, pos + 1));
                    }
                }
                None => {
                    break;
                }
            }
        }
        proof {
            assert(handler.log() =~= pre_g + group_sel_nodes(bb, gv, p));
            lemma_groups_sel_take_succ(bb, gs, p, gi as int);
            assert(handler.log() =~= log0 + groups_sel_nodes(bb, gs.take(gi + 1), p));
        }
        gi += 1;
    }
    proof {
        assert(gs.take(ng as int) =~= gs);
        assert(handler.log() =~= log0 + block_sel_nodes(bb, p));
    }
}

/// Hand over the kept ways of one block, in order, and add their
/// delta-decoded node references to the set.
#[verifier::rlimit(100)]
#[verifier::spinoff_prover]
fn hand_kept_ways<F: WayFilter, E: ElementHandler>(
    block: &PrimitiveBlock,
    filter: &mut F,
    callback: &mut E,
    node_ids: &mut IdSet,
    Ghost(keep): Ghost<spec_fn(SpecPrimitiveBlock, SpecWay) -> bool>,
)
    requires
        old(node_ids).wf(),
        forall|b: SpecPrimitiveBlock, w: SpecWay|
            #[trigger] old(filter).spec_keep(b, w) == keep(b, w),
    ensures
        final(node_ids).wf(),
        forall|b: SpecPrimitiveBlock, w: SpecWay|
            final(filter).spec_keep(b, w) == old(filter).spec_keep(b, w),
        final(callback).log() == old(callback).log() + block_kept_ways(block@, keep),
        forall|x: i64|
            #[trigger] final(node_ids)@.contains(x) == (old(node_ids)@.contains(x) || ref_in_kept(
                block_kept_ways(block@, keep),
                x,
            )),
{
    let ghost bb = block@;
    let ghost log0 = callback.log();
    let ghost s0 = node_ids@;
    let ghost gs = bb.primitivegroup;
    let groups = block.groups();
    let ng = groups.len();
    let mut gi: usize = 0;
    proof {
        assert(gs.take(0) =~= Seq::<SpecPrimitiveGroup>::empty());
        assert(log0 + groups_kept_ways(bb, gs.take(0), keep) =~= log0);
        assert forall|x: i64| #[trigger] node_ids@.contains(x) == (s0.contains(x) || ref_in_kept(
            groups_kept_ways(bb, gs.take(0), keep),
            x,
        )) by {};
    }
    while gi < ng
        invariant
            gi <= ng == groups@.len(),
            ng == gs.len(),
            node_ids.wf(),
            forall|k: int| 0 <= k < ng ==> #[trigger] groups@[k]@ == (bb, gs[k]),
            forall|b: SpecPrimitiveBlock, w: SpecWay|
                #[trigger] filter.spec_keep(b, w) == keep(b, w),
            callback.log() == log0 + groups_kept_ways(bb, gs.take(gi as int), keep),
            forall|x: i64|
                #[trigger] node_ids@.contains(x) == (s0.contains(x) || ref_in_kept(
                    groups_kept_ways(bb, gs.take(gi as int), keep),
                    x,
                )),
        decreases ng - gi,
    {
        let ghost gv = gs[gi as int];
        let ghost pre_g = callback.log();
        let ghost kws_g = groups_kept_ways(bb, gs.take(gi as int), keep);
        let ways = groups[gi].ways();
        let nw = ways.len();
        let mut wi: usize = 0;
        proof {
            assert(gv.ways.take(0) =~= Seq::<SpecWay>::empty());
            assert(pre_g + kept_ways_of(bb, gv.ways.take(0), keep) =~= pre_g);
            assert(kws_g + kept_ways_of(bb, gv.ways.take(0), keep) =~= kws_g);
        }
        while wi < nw
            invariant
                wi <= nw == ways@.len(),
                nw == gv.ways.len(),
                node_ids.wf(),
                forall|k: int| 0 <= k < nw ==> #[trigger] ways@[k]@ == (bb, gv.ways[k]),
                forall|b: SpecPrimitiveBlock, w: SpecWay|
                    #[trigger] filter.spec_keep(b, w) == keep(b, w),
                callback.log() == pre_g + kept_ways_of(bb, gv.ways.take(wi as int), keep),
                forall|x: i64|
                    #[trigger] node_ids@.contains(x) == (s0.contains(x) || ref_in_kept(
                        kws_g + kept_ways_of(bb, gv.ways.take(wi as int), keep),
                        x,
                    )),
            decreases nw - wi,
        {
            let way = ways[wi];
            let ghost wv = gv.ways[wi as int];
            let ghost kprefix = kws_g + kept_ways_of(bb, gv.ways.take(wi as int), keep);
            proof {
                assert(gv.ways.take(wi + 1).drop_last() =~= gv.ways.take(wi as int));
                assert(gv.ways.take(wi + 1).last() == wv);
            }
            if filter.keep(&way) {
                let mut refs = way.refs();
                let ghost dd = delta_decoded(wv.refs);
                proof {
                    assert(dd.take(0) =~= Seq::<i64>::empty());
                }
                loop
                    invariant
                        refs.wf(),
                        refs@.0 == wv.refs,
                        0 <= refs@.1 <= wv.refs.len(),
                        node_ids.wf(),
                        dd == delta_decoded(wv.refs),
                        forall|x: i64|
                            #[trigger] node_ids@.contains(x) == (s0.contains(x) || ref_in_kept(
                                kprefix,
                                x,
                            ) || dd.take(refs@.1).contains(x)),
                    ensures
                        node_ids.wf(),
                        forall|x: i64|
                            #[trigger] node_ids@.contains(x) == (s0.contains(x) || ref_in_kept(
                                kprefix,
                                x,
                            ) || dd.contains(x)),
                    decreases wv.refs.len() - refs@.1 + 1,
                {
                    let ghost pos = refs@.1;
                    match refs.next() {
                        Some(id) => {
                            node_ids.insert(id);
                            proof {
                                assert forall|x: i64|
                                    #[trigger] node_ids@.contains(x) == (s0.contains(x)
                                        || ref_in_kept(kprefix, x) || dd.take(pos + 1).contains(
                                        x,
                                    )) by {
                                    lemma_take_push_contains(dd, pos, x);
                                };
                            }
                        }
                        None => {
                            proof {
                                assert(dd.take(refs@.1) =~= dd);
                            }
                            break;
                        }
                    }
                }
                let e = Element::Way(way);
                callback.handle(&e);
                proof {
                    let we = SpecElement::Way(bb, wv);
                    assert(spec_element_of(e) == we);
                    assert(keep(bb, wv));
                    assert(kept_ways_of(bb, gv.ways.take(wi + 1), keep) =~= kept_ways_of(
                        bb,
                        gv.ways.take(wi as int),
                        keep,
                    ).push(we));
                    assert(callback.log() =~= pre_g + kept_ways_of(
                        bb,
                        gv.ways.take(wi + 1),
                        keep,
                    ));
                    let knext = kws_g + kept_ways_of(bb, gv.ways.take(wi + 1), keep);
                    assert(knext =~= kprefix.push(we));
                    assert forall|x: i64|
                        #[trigger] node_ids@.contains(x) == (s0.contains(x) || ref_in_kept(
                            knext,
                            x,
                        )) by {
                        lemma_ref_in_push(kprefix, we, x);
                    };
                }
            } else {
                proof {
                    assert(!keep(bb, wv));
                    assert(kept_ways_of(bb, gv.ways.take(wi + 1), keep) =~= kept_ways_of(
                        bb,
                        gv.ways.take(wi as int),
                        keep,
                    ));
                    assert(kws_g + kept_ways_of(bb, gv.ways.take(wi + 1), keep) =~= kprefix);
                }
            }
            wi += 1;
        }
        proof {
            assert(gv.ways.take(nw as int) =~= gv.ways);
            lemma_groups_kept_take_succ(bb, gs, keep, gi as int);
            assert(callback.log() =~= log0 + groups_kept_ways(bb, gs.take(gi + 1), keep));
            assert(kws_g + kept_ways_of(bb, gv.ways, keep) =~= groups_kept_ways(
                bb,
                gs.take(gi + 1),
                keep,
            ));
        }
        gi += 1;
    }
    proof {
        assert(gs.take(ng as int) =~= gs);
        assert(callback.log() =~= log0 + block_kept_ways(bb, keep));
    }
}

/// Concatenating way lists disjoins their reference tests.
pub proof fn lemma_ref_in_concat(a: Seq<SpecElement>, b: Seq<SpecElement>, x: i64)
    ensures
        ref_in_kept(a + b, x) == (ref_in_kept(a, x) || ref_in_kept(b, x)),
{
    if ref_in_kept(a, x) {
        let j = choose|j: int|
            0 <= j < a.len() && ((#[trigger] a[j]) matches SpecElement::Way(bb, w)
                && delta_decoded(w.refs).contains(x));
        assert((a + b)[j] == a[j]);
        assert(ref_in_kept(a + b, x));
    }
    if ref_in_kept(b, x) {
        let j = choose|j: int|
            0 <= j < b.len() && ((#[trigger] b[j]) matches SpecElement::Way(bb, w)
                && delta_decoded(w.refs).contains(x));
        assert((a + b)[a.len() + j] == b[j]);
        assert(ref_in_kept(a + b, x));
    }
    if ref_in_kept(a + b, x) {
        let j = choose|j: int|
            0 <= j < (a + b).len() && ((#[trigger] (a + b)[j]) matches SpecElement::Way(bb, w)
                && delta_decoded(w.refs).contains(x));
        if j < a.len() {
            assert(a[j] == (a + b)[j]);
            assert(ref_in_kept(a, x));
        } else {
            assert(b[j - a.len()] == (a + b)[j]);
            assert(ref_in_kept(b, x));
        }
    }
}

/// A block without ways keeps no way, whatever the predicate.
pub proof fn lemma_no_ways_no_kept(
    b: SpecPrimitiveBlock,
    gs: Seq<SpecPrimitiveGroup>,
    keep: spec_fn(SpecPrimitiveBlock, SpecWay) -> bool,
)
    requires
        groups_way_ids(gs).len() == 0,
    ensures
        groups_kept_ways(b, gs, keep) == Seq::<SpecElement>::empty(),
    decreases gs.len(),
{
    if gs.len() > 0 {
        lemma_no_ways_no_kept(b, gs.drop_last(), keep);
        assert(group_way_ids(gs.last()).len() == 0);
        assert(gs.last().ways.len() == 0);
        assert(groups_kept_ways(b, gs, keep) =~= Seq::<SpecElement>::empty());
    }
}

/// Sparse nodes none of whose ids pass the predicate select nothing.
proof fn lemma_sel_sparse_empty(
    b: SpecPrimitiveBlock,
    nodes: Seq<osmformat::SpecNode>,
    p: spec_fn(i64) -> bool,
)
    requires
        forall|k: int| 0 <= k < nodes.len() ==> !p(or_zero_i64(#[trigger] nodes[k].id)),
    ensures
        sel_sparse(b, nodes, p) == Seq::<SpecElement>::empty(),
    decreases nodes.len(),
{
    if nodes.len() > 0 {
        assert(forall|k: int|
            0 <= k < nodes.len() - 1 ==> #[trigger] nodes.drop_last()[k] == nodes[k]);
        lemma_sel_sparse_empty(b, nodes.drop_last(), p);
        assert(sel_sparse(b, nodes, p) =~= Seq::<SpecElement>::empty());
    }
}

/// Dense nodes none of whose ids pass the predicate select nothing.
proof fn lemma_sel_dense_empty(
    b: SpecPrimitiveBlock,
    dn: osmformat::SpecDenseNodes,
    p: spec_fn(i64) -> bool,
    n: int,
)
    requires
        forall|k: int| 0 <= k < n ==> !p(delta_decoded(dn.id)[k]),
    ensures
        sel_dense_upto(b, dn, p, n) == Seq::<SpecElement>::empty(),
    decreases n,
{
    if n > 0 {
        lemma_sel_dense_empty(b, dn, p, n - 1);
        assert(sel_dense_upto(b, dn, p, n) =~= Seq::<SpecElement>::empty());
    }
}

/// A block none of whose node ids passes the predicate selects no node.
pub proof fn lemma_no_sel_nodes(
    b: SpecPrimitiveBlock,
    gs: Seq<SpecPrimitiveGroup>,
    p: spec_fn(i64) -> bool,
)
    requires
        forall|k: int| 0 <= k < groups_node_ids(gs).len() ==> !p(#[trigger] groups_node_ids(gs)[k]),
    ensures
        groups_sel_nodes(b, gs, p) == Seq::<SpecElement>::empty(),
    decreases gs.len(),
{
    if gs.len() > 0 {
        let head = gs.drop_last();
        let g = gs.last();
        let pre = groups_node_ids(head);
        let gids = group_node_ids(g);
        assert(groups_node_ids(gs) == pre + gids);
        assert(forall|k: int| 0 <= k < pre.len() ==> #[trigger] pre[k] == groups_node_ids(gs)[k]);
        assert(forall|k: int|
            0 <= k < gids.len() ==> #[trigger] gids[k] == groups_node_ids(gs)[pre.len() + k]);
        lemma_no_sel_nodes(b, head, p);
        let sp = Seq::new(g.nodes.len(), |i: int| or_zero_i64(g.nodes[i].id));
        let dn = dense_msg_of(g.dense);
        let dd = delta_decoded(dn.id).take(dense_len(dn));
        assert(gids == sp + dd);
        assert forall|k: int| 0 <= k < g.nodes.len() implies !p(or_zero_i64(
            #[trigger] g.nodes[k].id,
        )) by {
            assert(gids[k] == sp[k]);
        };
        lemma_sel_sparse_empty(b, g.nodes, p);
        assert forall|k: int| 0 <= k < dense_len(dn) implies !p(delta_decoded(dn.id)[k]) by {
            assert(gids[sp.len() + k] == dd[k]);
            assert(dd[k] == delta_decoded(dn.id)[k]);
        };
        lemma_sel_dense_empty(b, dn, p, dense_len(dn));
        assert(groups_sel_nodes(b, gs, p) =~= Seq::<SpecElement>::empty());
    }
}

impl IndexedReader {
    /// A reader over the given bytes, with an empty index: no blob has
    /// been scanned yet.
    pub fn new(data: Vec<u8>) -> (r: Result<IndexedReader, Error>)
        ensures
            r matches Ok(ir) && ir@ == (SpecIndexedReader {
                data: data@,
                index: Seq::<BlobInfo>::empty(),
            }) && ir.wf(),
    {
        match BlobReader::new_seekable(data) {
            Ok(reader) => Ok(IndexedReader { reader, index: Vec::new() }),
            Err(e) => Err(e),
        }
    }

    /// Scan the file's structure once (headers only, payloads skipped,
    /// never decoded) and record each record's offset and kind, in file
    /// order, with ranges unknown.  Does nothing when the index is
    /// already built; on a fresh index it succeeds exactly when every
    /// record frames to a clean end of input.
    #[verifier::rlimit(100)]
    #[verifier::spinoff_prover]
    pub fn create_index(&mut self) -> (r: Result<(), Error>)
        requires
            old(self).wf(),
        ensures
            final(self)@.data == old(self)@.data,
            old(self)@.index.len() > 0 ==> r is Ok && final(self)@ == old(self)@
                && final(self).wf(),
            old(self)@.index.len() == 0 ==> {
                &&& (r is Ok <==> spec_frames_clean(old(self)@.data, 0))
                &&& (r is Ok ==> final(self)@.index == spec_scan_entries(old(self)@.data, 0)
                    && final(self).wf())
            },
    {
        if self.index.len() > 0 {
            return Ok(());
        }
        let ghost d = self.reader@.data;
        match self.reader.seek(ByteOffset(0)) {
            Ok(_) => (),
            Err(e) => {
                return Err(e);
            }
        }
        let mut res: Result<(), Error> = Ok(());
        loop
            invariant_except_break
                self.reader@.ok,
                0 <= self.reader@.offset <= d.len(),
                res is Ok,
                spec_scan_entries(d, 0) == self.index@ + spec_scan_entries(
                    d,
                    self.reader@.offset,
                ),
                spec_frames_clean(d, 0) == spec_frames_clean(d, self.reader@.offset),
            invariant
                self.reader@.data == d,
                self.reader@.seekable,
                forall|k: int|
                    0 <= k < self.index@.len() ==> #[trigger] self.index@[k].id_ranges is None,
            ensures
                (res is Ok <==> spec_frames_clean(d, 0)),
                res is Ok ==> self.index@ == spec_scan_entries(d, 0) && self.reader@.ok
                    && self.reader@.seekable,
            decreases vstd::math::max(0, self.reader@.data.len() - self.reader@.offset),
        {
            let ghost off0 = self.reader@.offset;
            let next = self.reader.next_header_skip_blob();
            proof {
                crate::blob::lemma_frame_advances(d, off0);
            }
            match next {
                None => {
                    proof {
                        assert(self.index@ + spec_scan_entries(d, off0) =~= self.index@);
                    }
                    break;
                }
                Some(Err(e)) => {
                    res = Err(e);
                    break;
                }
                Some(Ok((header, offset))) => {
                    proof {
                        reveal_strlit("OSMHeader");
                        reveal_strlit("OSMData");
                        assert(("OSMHeader"@).len() == 9);
                        assert(("OSMData"@).len() == 7);
                    }
                    let blob_type = match header.blob_type() {
                        BlobType::OsmHeader => SimpleBlobType::Header,
                        BlobType::OsmData => SimpleBlobType::Primitive,
                        BlobType::Unknown(_) => SimpleBlobType::Unknown,
                    };
                    let offset = match offset {
                        Some(o) => o,
                        None => ByteOffset(0),
                    };
                    let entry = BlobInfo { offset, blob_type, id_ranges: None };
                    proof {
                        let ghost h = header@;
                        let base = BlobInfo {
                            offset: ByteOffset(off0 as u64),
                            blob_type: spec_kind_of(h.type_),
                            id_ranges: None,
                        };
                        assert(spec_scan_entries(d, off0) == seq![base] + spec_scan_entries(
                            d,
                            self.reader@.offset,
                        ));
                        assert(entry == base);
                        assert(self.index@ + (seq![base] + spec_scan_entries(
                            d,
                            self.reader@.offset,
                        )) =~= self.index@.push(base) + spec_scan_entries(
                            d,
                            self.reader@.offset,
                        ));
                    }
                    self.index.push(entry);
                }
            }
        }
        proof {
            if res is Ok {
                assert(self.index@.len() == spec_scan_entries(d, 0).len());
                assert forall|k: int| 0 <= k < self.index@.len() implies entry_matches(
                    d,
                    spec_scan_entries(d, 0)[k],
                    #[trigger] self.index@[k],
                ) by {
                    assert(self.index@[k] == spec_scan_entries(d, 0)[k]);
                    assert(self.index@[k].id_ranges is None);
                };
            }
        }
        res
    }

    /// Record the element id ranges of a freshly decoded block in its
    /// index entry; afterwards the entry's ranges are always known, and
    /// a newly recorded range is exactly the inclusive min/max of the
    /// block's ids of that kind, `None` where the block holds none.
    #[verifier::rlimit(100)]
    #[verifier::spinoff_prover]
    pub fn update_element_id_ranges(info: &mut BlobInfo, block: &PrimitiveBlock)
        ensures
            final(info).id_ranges is Some,
            final(info).offset == old(info).offset,
            final(info).blob_type == old(info).blob_type,
            old(info).id_ranges is Some ==> *final(info) == *old(info),
            old(info).id_ranges is None ==> final(info).id_ranges == Some(
                spec_ranges_of(block@),
            ),
    {
        if info.id_ranges.is_some() {
            return;
        }
        let ghost bb = block@;
        let ghost gs = bb.primitivegroup;
        let mut min_node: Option<i64> = None;
        let mut max_node: Option<i64> = None;
        let mut min_way: Option<i64> = None;
        let mut max_way: Option<i64> = None;
        let mut min_rel: Option<i64> = None;
        let mut max_rel: Option<i64> = None;
        let groups = block.groups();
        let n = groups.len();
        let mut i: usize = 0;
        proof {
            assert(gs.take(0) =~= Seq::<SpecPrimitiveGroup>::empty());
        }
        while i < n
            invariant
                i <= n == groups@.len(),
                n == gs.len(),
                gs == bb.primitivegroup,
                forall|k: int| 0 <= k < n ==> #[trigger] groups@[k]@ == (bb, gs[k]),
                min_node is Some <==> max_node is Some,
                min_way is Some <==> max_way is Some,
                min_rel is Some <==> max_rel is Some,
                opt_range(min_node, max_node) == id_range_of(groups_node_ids(gs.take(i as int))),
                opt_range(min_way, max_way) == id_range_of(groups_way_ids(gs.take(i as int))),
                opt_range(min_rel, max_rel) == id_range_of(
                    groups_relation_ids(gs.take(i as int)),
                ),
            decreases n - i,
        {
            let g = &groups[i];
            let ghost gv = gs[i as int];
            let ghost prefn = groups_node_ids(gs.take(i as int));
            let ghost prefw = groups_way_ids(gs.take(i as int));
            let ghost prefr = groups_relation_ids(gs.take(i as int));
            let ghost sparse_ids = Seq::new(gv.nodes.len(), |k: int| or_zero_i64(gv.nodes[k].id));
            let nodes = g.nodes();
            let mut j: usize = 0;
            let nn = nodes.len();
            proof {
                assert(prefn + sparse_ids.take(0) =~= prefn);
            }
            while j < nn
                invariant
                    j <= nn == nodes@.len(),
                    nn == gv.nodes.len(),
                    forall|k: int| 0 <= k < nn ==> #[trigger] nodes@[k]@ == (bb, gv.nodes[k]),
                    sparse_ids == Seq::new(gv.nodes.len(), |k: int| or_zero_i64(gv.nodes[k].id)),
                    min_node is Some <==> max_node is Some,
                    opt_range(min_node, max_node) == id_range_of(prefn + sparse_ids.take(j as int)),
                decreases nn - j,
            {
                let id = nodes[j].id();
                proof {
                    assert((prefn + sparse_ids.take(j + 1)).drop_last() =~= prefn
                        + sparse_ids.take(j as int));
                    assert((prefn + sparse_ids.take(j + 1)).last() == sparse_ids[j as int]);
                }
                min_node = Some(
                    match min_node {
                        Some(m) => if id < m {
                            id
                        } else {
                            m
                        },
                        None => id,
                    },
                );
                max_node = Some(
                    match max_node {
                        Some(m) => if id > m {
                            id
                        } else {
                            m
                        },
                        None => id,
                    },
                );
                j += 1;
            }
            let mut dense = g.dense_nodes();
            let ghost dn = dense.spec_view().1;
            proof {
                assert(sparse_ids.take(nn as int) =~= sparse_ids);
                assert(prefn + sparse_ids + delta_decoded(dn.id).take(0) =~= prefn + sparse_ids);
            }
            loop
                invariant
                    dense.wf(),
                    dense.spec_view().0 == bb,
                    dense.spec_view().1 == dn,
                    0 <= dense.spec_view().2 <= dense_len(dn),
                    min_node is Some <==> max_node is Some,
                    opt_range(min_node, max_node) == id_range_of(
                        prefn + sparse_ids + delta_decoded(dn.id).take(dense.spec_view().2),
                    ),
                ensures
                    min_node is Some <==> max_node is Some,
                    opt_range(min_node, max_node) == id_range_of(
                        prefn + sparse_ids + delta_decoded(dn.id).take(dense_len(dn)),
                    ),
                decreases dense_len(dn) - dense.spec_view().2 + 1,
            {
                let ghost pos = dense.spec_view().2;
                match dense.next() {
                    Some(node) => {
                        let id = node.node_id();
                        proof {
                            assert((prefn + sparse_ids + delta_decoded(dn.id).take(pos
                                + 1)).drop_last() =~= prefn + sparse_ids + delta_decoded(
                                dn.id,
                            ).take(pos));
                            assert((prefn + sparse_ids + delta_decoded(dn.id).take(pos
                                + 1)).last() == delta_decoded(dn.id)[pos]);
                        }
                        min_node = Some(
                            match min_node {
                                Some(m) => if id < m {
                                    id
                                } else {
                                    m
                                },
                                None => id,
                            },
                        );
                        max_node = Some(
                            match max_node {
                                Some(m) => if id > m {
                                    id
                                } else {
                                    m
                                },
                                None => id,
                            },
                        );
                    }
                    None => {
                        break;
                    }
                }
            }
            let ghost way_ids_g = Seq::new(gv.ways.len(), |k: int| or_zero_i64(gv.ways[k].id));
            let ways = g.ways();
            let mut j2: usize = 0;
            let nw = ways.len();
            proof {
                assert(prefw + way_ids_g.take(0) =~= prefw);
            }
            while j2 < nw
                invariant
                    j2 <= nw == ways@.len(),
                    nw == gv.ways.len(),
                    forall|k: int| 0 <= k < nw ==> #[trigger] ways@[k]@ == (bb, gv.ways[k]),
                    way_ids_g == Seq::new(gv.ways.len(), |k: int| or_zero_i64(gv.ways[k].id)),
                    min_way is Some <==> max_way is Some,
                    opt_range(min_way, max_way) == id_range_of(prefw + way_ids_g.take(j2 as int)),
                decreases nw - j2,
            {
                let id = ways[j2].id();
                proof {
                    assert((prefw + way_ids_g.take(j2 + 1)).drop_last() =~= prefw
                        + way_ids_g.take(j2 as int));
                    assert((prefw + way_ids_g.take(j2 + 1)).last() == way_ids_g[j2 as int]);
                }
                min_way = Some(
                    match min_way {
                        Some(m) => if id < m {
                            id
                        } else {
                            m
                        },
                        None => id,
                    },
                );
                max_way = Some(
                    match max_way {
                        Some(m) => if id > m {
                            id
                        } else {
                            m
                        },
                        None => id,
                    },
                );
                j2 += 1;
            }
            let ghost rel_ids_g = Seq::new(
                gv.relations.len(),
                |k: int| or_zero_i64(gv.relations[k].id),
            );
            let rels = g.relations();
            let mut j3: usize = 0;
            let nr = rels.len();
            proof {
                assert(prefr + rel_ids_g.take(0) =~= prefr);
            }
            while j3 < nr
                invariant
                    j3 <= nr == rels@.len(),
                    nr == gv.relations.len(),
                    forall|k: int| 0 <= k < nr ==> #[trigger] rels@[k]@ == (bb, gv.relations[k]),
                    rel_ids_g == Seq::new(
                        gv.relations.len(),
                        |k: int| or_zero_i64(gv.relations[k].id),
                    ),
                    min_rel is Some <==> max_rel is Some,
                    opt_range(min_rel, max_rel) == id_range_of(prefr + rel_ids_g.take(j3 as int)),
                decreases nr - j3,
            {
                let id = rels[j3].id();
                proof {
                    assert((prefr + rel_ids_g.take(j3 + 1)).drop_last() =~= prefr
                        + rel_ids_g.take(j3 as int));
                    assert((prefr + rel_ids_g.take(j3 + 1)).last() == rel_ids_g[j3 as int]);
                }
                min_rel = Some(
                    match min_rel {
                        Some(m) => if id < m {
                            id
                        } else {
                            m
                        },
                        None => id,
                    },
                );
                max_rel = Some(
                    match max_rel {
                        Some(m) => if id > m {
                            id
                        } else {
                            m
                        },
                        None => id,
                    },
                );
                j3 += 1;
            }
            proof {
                assert(way_ids_g.take(nw as int) =~= way_ids_g);
                assert(rel_ids_g.take(nr as int) =~= rel_ids_g);
                assert(prefn + sparse_ids + delta_decoded(dn.id).take(dense_len(dn)) =~= prefn
                    + group_node_ids(gv));
                assert(prefw + way_ids_g =~= prefw + group_way_ids(gv));
                assert(prefr + rel_ids_g =~= prefr + group_relation_ids(gv));
                lemma_groups_node_ids_take_succ(gs, i as int);
                lemma_groups_way_ids_take_succ(gs, i as int);
                lemma_groups_relation_ids_take_succ(gs, i as int);
            }
            i += 1;
        }
        proof {
            assert(gs.take(n as int) =~= gs);
        }
        let node_ids = match (min_node, max_node) {
            (Some(a), Some(b)) => Some((a, b)),
            _ => None,
        };
        let way_ids = match (min_way, max_way) {
            (Some(a), Some(b)) => Some((a, b)),
            _ => None,
        };
        let relation_ids = match (min_rel, max_rel) {
            (Some(a), Some(b)) => Some((a, b)),
            _ => None,
        };
        info.id_ranges = Some(IdRanges { node_ids, way_ids, relation_ids });
    }

    /// Filter ways with the given predicate: each kept way is handed to
    /// the callback, in file order, and its delta-decoded node
    /// references are added to the required set; a second pass then
    /// hands over, in file order, exactly the nodes (sparse and dense)
    /// whose id some kept way references, decoding only blobs whose
    /// recorded node range reaches the set.  Relations are never
    /// handed over.  It succeeds exactly when every record frames and
    /// every data blob decodes.
    #[verifier::rlimit(100)]
    #[verifier::spinoff_prover]
    pub fn read_ways_and_deps<F: WayFilter, E: ElementHandler>(
        &mut self,
        filter: &mut F,
        callback: &mut E,
    ) -> (r: Result<(), Error>)
        requires
            old(self).wf(),
        ensures
            final(self)@.data == old(self)@.data,
            r is Ok ==> final(self).wf(),
            r is Ok <==> spec_data_clean(old(self)@.data),
            forall|b: SpecPrimitiveBlock, w: SpecWay|
                final(filter).spec_keep(b, w) == old(filter).spec_keep(b, w),
            r is Ok ==> final(callback).log() == old(callback).log() + entries_kept_ways(
                old(self)@.data,
                spec_scan_entries(old(self)@.data, 0),
                keep_of(*old(filter)),
            ) + entries_sel_nodes(
                old(self)@.data,
                spec_scan_entries(old(self)@.data, 0),
                ref_pred(old(self)@.data, keep_of(*old(filter))),
            ),
    {
        let ghost d = old(self)@.data;
        let ghost log0 = callback.log();
        let ghost keep = keep_of(*filter);
        match self.create_index() {
            Ok(_) => (),
            Err(e) => {
                return Err(e);
            }
        }
        let ghost scan = spec_scan_entries(d, 0);
        let mut node_ids = IdSet::new();
        let n = self.index.len();
        let mut i: usize = 0;
        let mut res: Result<(), Error> = Ok(());
        proof {
            assert(scan.take(0) =~= Seq::<BlobInfo>::empty());
        }
        // First pass: filter ways and record their node references.
        loop
            invariant_except_break
                i <= n,
                self.reader@.ok,
                res is Ok,
                node_ids.wf(),
                forall|k: int|
                    0 <= k < i && (#[trigger] scan[k]).blob_type == SimpleBlobType::Primitive
                        ==> spec_block_at(d, scan[k].offset.0 as int) is Some,
                forall|k: int|
                    0 <= k < i && (#[trigger] self.index@[k]).blob_type
                        == SimpleBlobType::Primitive ==> self.index@[k].id_ranges is Some,
                callback.log() == log0 + entries_kept_ways(d, scan.take(i as int), keep),
                forall|x: i64|
                    #[trigger] node_ids@.contains(x) == ref_in_kept(
                        entries_kept_ways(d, scan.take(i as int), keep),
                        x,
                    ),
            invariant
                self.reader@.data == d,
                self.reader@.seekable,
                n == self.index@.len(),
                n == scan.len(),
                scan == spec_scan_entries(d, 0),
                spec_frames_clean(d, 0),
                forall|k: int|
                    0 <= k < n ==> entry_matches(d, scan[k], #[trigger] self.index@[k]),
                forall|k: int|
                    0 <= k < n && (#[trigger] self.index@[k]).blob_type
                        != SimpleBlobType::Primitive ==> self.index@[k].id_ranges is None,
                forall|b: SpecPrimitiveBlock, w: SpecWay|
                    #[trigger] filter.spec_keep(b, w) == keep(b, w),
            ensures
                res is Ok ==> {
                    &&& self.reader@.ok
                    &&& node_ids.wf()
                    &&& callback.log() == log0 + entries_kept_ways(d, scan, keep)
                    &&& forall|x: i64|
                        #[trigger] node_ids@.contains(x) == ref_in_kept(
                            entries_kept_ways(d, scan, keep),
                            x,
                        )
                    &&& forall|k: int|
                        0 <= k < n && (#[trigger] self.index@[k]).blob_type
                            == SimpleBlobType::Primitive ==> self.index@[k].id_ranges is Some
                    &&& spec_data_clean(d)
                },
                res is Err ==> !spec_data_clean(d),
            decreases n - i,
        {
            if i >= n {
                proof {
                    assert(scan.take(n as int) =~= scan);
                }
                break;
            }
            let info = self.index[i];
            let ghost base = scan[i as int];
            let decode_it = match (info.blob_type, info.ways_available()) {
                (SimpleBlobType::Primitive, ElementsAvailable::No) => false,
                (SimpleBlobType::Primitive, _) => true,
                _ => false,
            };
            proof {
                lemma_entries_kept_take_succ(d, scan, keep, i as int);
            }
            if decode_it {
                let block = match fetch_block(&mut self.reader, info.offset) {
                    Ok(b) => b,
                    Err(e) => {
                        res = Err(e);
                        break;
                    }
                };
                let ghost bb = block@;
                let mut updated = info;
                Self::update_element_id_ranges(&mut updated, &block);
                let ghost idx0 = self.index@;
                self.index[i] = updated;
                proof {
                    assert forall|k: int| 0 <= k < n implies entry_matches(
                        d,
                        scan[k],
                        #[trigger] self.index@[k],
                    ) by {
                        if k != i {
                            assert(self.index@[k] == idx0[k]);
                        } else {
                            assert(self.index@[k] == updated);
                        }
                    };
                    assert forall|k: int|
                        0 <= k < n && (#[trigger] self.index@[k]).blob_type
                            != SimpleBlobType::Primitive implies self.index@[k].id_ranges
                        is None by {
                        if k != i {
                            assert(self.index@[k] == idx0[k]);
                        }
                    };
                }
                let ghost c0 = node_ids@;
                hand_kept_ways(&block, filter, callback, &mut node_ids, Ghost(keep));
                proof {
                    assert(entry_kept_ways(d, base, keep) == block_kept_ways(bb, keep));
                    assert(callback.log() =~= log0 + entries_kept_ways(
                        d,
                        scan.take(i + 1),
                        keep,
                    ));
                    let prev = entries_kept_ways(d, scan.take(i as int), keep);
                    let blk = block_kept_ways(bb, keep);
                    assert(entries_kept_ways(d, scan.take(i + 1), keep) == prev + blk);
                    assert forall|x: i64|
                        #[trigger] node_ids@.contains(x) == ref_in_kept(
                            entries_kept_ways(d, scan.take(i + 1), keep),
                            x,
                        ) by {
                        lemma_ref_in_concat(prev, blk, x);
                    };
                }
            } else {
                proof {
                    let prev = entries_kept_ways(d, scan.take(i as int), keep);
                    if info.blob_type == SimpleBlobType::Primitive {
                        let rg = info.id_ranges->Some_0;
                        let b = spec_block_at(d, base.offset.0 as int)->Some_0;
                        assert(rg == spec_ranges_of(b));
                        assert(rg.way_ids is None);
                        lemma_id_range_bounds(block_way_ids(b));
                        assert(block_way_ids(b).len() == 0);
                        lemma_no_ways_no_kept(b, b.primitivegroup, keep);
                        assert(entry_kept_ways(d, base, keep) == Seq::<SpecElement>::empty());
                    } else {
                        assert(entry_kept_ways(d, base, keep) == Seq::<SpecElement>::empty());
                    }
                    assert(callback.log() =~= log0 + entries_kept_ways(
                        d,
                        scan.take(i + 1),
                        keep,
                    ));
                    assert(entries_kept_ways(d, scan.take(i + 1), keep) =~= prev);
                }
            }
            i += 1;
        }
        if res.is_err() {
            return res;
        }
        // Second pass: hand over the nodes whose ids were required.
        let ghost p = ref_pred(d, keep);
        let ghost log1 = callback.log();
        proof {
            assert forall|x: i64| #[trigger] node_ids@.contains(x) == p(x) by {};
            assert(scan.take(0) =~= Seq::<BlobInfo>::empty());
            assert(log1 + entries_sel_nodes(d, scan.take(0), p) =~= log1);
        }
        let mut i2: usize = 0;
        while i2 < n
            invariant
                i2 <= n,
                n == self.index@.len(),
                n == scan.len(),
                scan == spec_scan_entries(d, 0),
                spec_frames_clean(d, 0),
                spec_data_clean(d),
                self.reader@.data == d,
                self.reader@.ok,
                self.reader@.seekable,
                node_ids.wf(),
                forall|x: i64| #[trigger] node_ids@.contains(x) == p(x),
                forall|k: int|
                    0 <= k < n ==> entry_matches(d, scan[k], #[trigger] self.index@[k]),
                forall|k: int|
                    0 <= k < n && (#[trigger] self.index@[k]).blob_type
                        == SimpleBlobType::Primitive ==> self.index@[k].id_ranges is Some,
                forall|k: int|
                    0 <= k < n && (#[trigger] self.index@[k]).blob_type
                        != SimpleBlobType::Primitive ==> self.index@[k].id_ranges is None,
                forall|b: SpecPrimitiveBlock, w: SpecWay|
                    #[trigger] filter.spec_keep(b, w) == keep(b, w),
                callback.log() == log1 + entries_sel_nodes(d, scan.take(i2 as int), p),
            decreases n - i2,
        {
            let info = self.index[i2];
            let ghost base = scan[i2 as int];
            let range = info.node_range_included(&node_ids);
            proof {
                lemma_entries_sel_take_succ(d, scan, p, i2 as int);
            }
            if range.is_some() {
                proof {
                    assert(info.blob_type == SimpleBlobType::Primitive);
                    assert(spec_block_at(d, base.offset.0 as int) is Some);
                }
                let block = match fetch_block(&mut self.reader, info.offset) {
                    Ok(b) => b,
                    Err(e) => {
                        // A recorded range means the first pass decoded
                        // this blob, so a second decode cannot fail.
                        proof {
                            assert(false);
                        }
                        return Err(e);
                    }
                };
                let ghost bb = block@;
                hand_selected_nodes(&block, false, &node_ids, callback, Ghost(p));
                proof {
                    assert(entry_sel_nodes(d, base, p) == block_sel_nodes(bb, p));
                    assert(callback.log() =~= log1 + entries_sel_nodes(d, scan.take(i2 + 1), p));
                }
            } else {
                proof {
                    if info.blob_type == SimpleBlobType::Primitive {
                        let rg = info.id_ranges->Some_0;
                        let b = spec_block_at(d, base.offset.0 as int)->Some_0;
                        assert(rg == spec_ranges_of(b));
                        lemma_id_range_bounds(block_node_ids(b));
                        if rg.node_ids is Some {
                            let lohi = rg.node_ids->Some_0;
                            assert(!(exists|x: i64|
                                lohi.0 <= x <= lohi.1 && #[trigger] node_ids@.contains(x)));
                            assert forall|k: int|
                                0 <= k < block_node_ids(b).len() implies !p(
                                #[trigger] block_node_ids(b)[k],
                            ) by {
                                let id = block_node_ids(b)[k];
                                assert(lohi.0 <= id <= lohi.1);
                                if p(id) {
                                    assert(node_ids@.contains(id));
                                }
                            };
                        } else {
                            assert(block_node_ids(b).len() == 0);
                        }
                        lemma_no_sel_nodes(b, b.primitivegroup, p);
                        assert(entry_sel_nodes(d, base, p) == Seq::<SpecElement>::empty());
                    } else {
                        assert(entry_sel_nodes(d, base, p) == Seq::<SpecElement>::empty());
                    }
                    assert(callback.log() =~= log1 + entries_sel_nodes(d, scan.take(i2 + 1), p));
                }
            }
            i2 += 1;
        }
        proof {
            assert(scan.take(n as int) =~= scan);
        }
        Ok(())
    }

    /// Walk every node (sparse and dense) of every data blob, in file
    /// order (per group: sparse nodes, then dense nodes), skipping
    /// blobs the index knows hold none without decoding them.  Builds
    /// the index and records id ranges as a side effect.  It succeeds
    /// exactly when every record frames and every data blob decodes,
    /// and then the handler has been given exactly the stream's nodes.
    #[verifier::rlimit(100)]
    #[verifier::spinoff_prover]
    pub fn for_each_node<H: ElementHandler>(&mut self, handler: &mut H) -> (r: Result<(), Error>)
        requires
            old(self).wf(),
        ensures
            final(self)@.data == old(self)@.data,
            r is Ok ==> final(self).wf(),
            r is Ok <==> spec_data_clean(old(self)@.data),
            r is Ok ==> final(handler).log() == old(handler).log() + entries_sel_nodes(
                old(self)@.data,
                spec_scan_entries(old(self)@.data, 0),
                true_pred(),
            ),
    {
        let ghost d = old(self)@.data;
        let ghost log0 = handler.log();
        let ghost p = true_pred();
        match self.create_index() {
            Ok(_) => (),
            Err(e) => {
                return Err(e);
            }
        }
        let ghost scan = spec_scan_entries(d, 0);
        let empty_ids = IdSet::new();
        let n = self.index.len();
        let mut i: usize = 0;
        let mut res: Result<(), Error> = Ok(());
        proof {
            assert(scan.take(0) =~= Seq::<BlobInfo>::empty());
        }
        loop
            invariant_except_break
                i <= n,
                self.reader@.ok,
                res is Ok,
                forall|k: int|
                    0 <= k < i && (#[trigger] scan[k]).blob_type == SimpleBlobType::Primitive
                        ==> spec_block_at(d, scan[k].offset.0 as int) is Some,
                handler.log() == log0 + entries_sel_nodes(d, scan.take(i as int), p),
            invariant
                p == true_pred(),
                empty_ids.wf(),
                self.reader@.data == d,
                self.reader@.seekable,
                n == self.index@.len(),
                n == scan.len(),
                scan == spec_scan_entries(d, 0),
                spec_frames_clean(d, 0),
                forall|k: int|
                    0 <= k < n ==> entry_matches(d, scan[k], #[trigger] self.index@[k]),
                forall|k: int|
                    0 <= k < n && (#[trigger] self.index@[k]).blob_type
                        != SimpleBlobType::Primitive ==> self.index@[k].id_ranges is None,
            ensures
                res is Ok ==> self.reader@.ok && handler.log() == log0 + entries_sel_nodes(
                    d,
                    scan,
                    p,
                ) && spec_data_clean(d),
                res is Err ==> !spec_data_clean(d),
            decreases n - i,
        {
            if i >= n {
                proof {
                    assert(scan.take(n as int) =~= scan);
                }
                break;
            }
            let info = self.index[i];
            let ghost base = scan[i as int];
            let decode_it = match (info.blob_type, info.nodes_available()) {
                (SimpleBlobType::Primitive, ElementsAvailable::No) => false,
                (SimpleBlobType::Primitive, _) => true,
                _ => false,
            };
            proof {
                lemma_entries_sel_take_succ(d, scan, p, i as int);
            }
            if decode_it {
                let block = match fetch_block(&mut self.reader, info.offset) {
                    Ok(b) => b,
                    Err(e) => {
                        res = Err(e);
                        break;
                    }
                };
                let ghost bb = block@;
                let mut updated = info;
                Self::update_element_id_ranges(&mut updated, &block);
                let ghost idx0 = self.index@;
                self.index[i] = updated;
                proof {
                    assert forall|k: int| 0 <= k < n implies entry_matches(
                        d,
                        scan[k],
                        #[trigger] self.index@[k],
                    ) by {
                        if k != i {
                            assert(self.index@[k] == idx0[k]);
                        } else {
                            assert(self.index@[k] == updated);
                        }
                    };
                    assert forall|k: int|
                        0 <= k < n && (#[trigger] self.index@[k]).blob_type
                            != SimpleBlobType::Primitive implies self.index@[k].id_ranges
                        is None by {
                        if k != i {
                            assert(self.index@[k] == idx0[k]);
                        }
                    };
                }
                proof {
                    assert forall|x: i64| #[trigger] p(x) == true by {};
                }
                hand_selected_nodes(&block, true, &empty_ids, handler, Ghost(p));
                proof {
                    assert(entry_sel_nodes(d, base, p) == block_sel_nodes(bb, p));
                    assert(handler.log() =~= log0 + entries_sel_nodes(d, scan.take(i + 1), p));
                }
            } else {
                proof {
                    if info.blob_type == SimpleBlobType::Primitive {
                        let rg = info.id_ranges->Some_0;
                        let b = spec_block_at(d, base.offset.0 as int)->Some_0;
                        assert(rg == spec_ranges_of(b));
                        assert(rg.node_ids is None);
                        lemma_id_range_bounds(block_node_ids(b));
                        assert(block_node_ids(b).len() == 0);
                        lemma_no_sel_nodes(b, b.primitivegroup, p);
                        assert(entry_sel_nodes(d, base, p) == Seq::<SpecElement>::empty());
                    } else {
                        assert(entry_sel_nodes(d, base, p) == Seq::<SpecElement>::empty());
                    }
                    assert(handler.log() =~= log0 + entries_sel_nodes(d, scan.take(i + 1), p));
                }
            }
            i += 1;
        }
        proof {
            if res is Ok {
                assert forall|k: int| 0 <= k < self.index@.len() implies entry_matches(
                    d,
                    spec_scan_entries(d, 0)[k],
                    #[trigger] self.index@[k],
                ) by {};
            }
        }
        res
    }
}

} // verus!
