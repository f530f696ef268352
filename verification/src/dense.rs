//! Dense nodes: four parallel delta-coded columns and a shared,
//! zero-terminated tag stream, decoded by a cursor carried on the
//! iterator.

use vstd::prelude::*;
use crate::block::{granularity_of, lat_offset_of, lon_offset_of};
use crate::delta::{crop_total, decimicro_coord, decimicro_of, delta_decoded, nano_coord, nano_of};
use crate::osmformat;
use crate::osmformat::{SpecDenseInfo, SpecDenseNodes, SpecPrimitiveBlock};
use crate::wire::{i32_as_u32, i32_to_u32};
use vstd::math::min;

verus! {

/// How many dense nodes a message holds: the three coordinate columns
/// advance in step, so the shortest bounds them all.
pub open spec fn dense_len(dn: SpecDenseNodes) -> int {
    min(dn.id.len() as int, min(dn.lat.len() as int, dn.lon.len() as int))
}

/// How many entries the per-node metadata columns hold.
pub open spec fn dense_info_len(di: SpecDenseInfo) -> int {
    min(
        di.version.len() as int,
        min(
            di.timestamp.len() as int,
            min(di.changeset.len() as int, min(di.uid.len() as int, di.user_sid.len() as int)),
        ),
    )
}

/// Where one node's tag pairs end when its run starts at `c`: pairs are
/// read while a full pair with a non-zero key remains.
pub open spec fn kv_pairs_end(kv: Seq<i32>, c: int) -> int
    decreases kv.len() - c,
{
    if c < 0 || c + 1 >= kv.len() || kv[c] == 0 {
        c
    } else {
        kv_pairs_end(kv, c + 2)
    }
}

/// The cursor after consuming one node's tag run: past its terminator,
/// or past a trailing odd entry at the end of the stream.
pub open spec fn kv_next(kv: Seq<i32>, c: int) -> int {
    let e = kv_pairs_end(kv, c);
    if e < kv.len() {
        e + 1
    } else {
        e
    }
}

/// The cursor after the tag runs of the first `n` nodes.
pub open spec fn kv_cursor(kv: Seq<i32>, n: int) -> int
    decreases n,
{
    if n <= 0 {
        0
    } else {
        kv_next(kv, kv_cursor(kv, n - 1))
    }
}

pub proof fn lemma_kv_pairs_end_bounds(kv: Seq<i32>, c: int)
    requires
        0 <= c <= kv.len(),
    ensures
        c <= kv_pairs_end(kv, c) <= kv.len(),
        (kv_pairs_end(kv, c) - c) % 2 == 0,
        kv_pairs_end(kv, c) + 1 >= kv.len() || kv[kv_pairs_end(kv, c)] == 0,
    decreases kv.len() - c,
{
    if !(c + 1 >= kv.len() || kv[c] == 0) {
        lemma_kv_pairs_end_bounds(kv, c + 2);
    }
}

pub proof fn lemma_kv_cursor_bounds(kv: Seq<i32>, n: int)
    requires
        0 <= n,
    ensures
        0 <= kv_cursor(kv, n) <= kv.len(),
    decreases n,
{
    if n > 0 {
        lemma_kv_cursor_bounds(kv, n - 1);
        lemma_kv_pairs_end_bounds(kv, kv_cursor(kv, n - 1));
    }
}

/// No pair inside a run carries a zero key: the decoder stops a run at
/// the first zero in key position.
pub proof fn lemma_kv_pairs_nonzero_keys(kv: Seq<i32>, c: int, j: int)
    requires
        0 <= c <= kv.len(),
        c <= j < kv_pairs_end(kv, c),
        (j - c) % 2 == 0,
    ensures
        kv[j] != 0,
    decreases kv.len() - c,
{
    lemma_kv_pairs_end_bounds(kv, c);
    if !(c + 1 >= kv.len() || kv[c] == 0) {
        if j > c {
            lemma_kv_pairs_nonzero_keys(kv, c + 2, j);
        }
    }
}

/// The exact sum of the first `k` 32-bit deltas.
pub open spec fn delta_total_i32(d: Seq<i32>, k: int) -> int
    decreases k,
{
    if k <= 0 || k > d.len() {
        0
    } else {
        delta_total_i32(d, k - 1) + d[k - 1]
    }
}

/// The 32-bit accumulator after `k` deltas.
pub open spec fn crop32_total(d: Seq<i32>, k: int) -> i32 {
    vstd::wrapping::i32_specs::signed_crop(delta_total_i32(d, k))
}

pub proof fn lemma_crop32_total_step(d: Seq<i32>, k: int)
    requires
        0 <= k < d.len(),
    ensures
        vstd::wrapping::i32_specs::wrapping_add(crop32_total(d, k), d[k]) == crop32_total(
            d,
            k + 1,
        ),
{
    let t = delta_total_i32(d, k);
    let c = vstd::wrapping::i32_specs::signed_crop(t) as int;
    assert(delta_total_i32(d, k + 1) == t + d[k]);
    assert((c - t) % 0x1_0000_0000 == 0) by (nonlinear_arith)
        requires
            c == ({
                if (t % 0x1_0000_0000) > i32::MAX {
                    (t % 0x1_0000_0000) - 0x1_0000_0000
                } else {
                    t % 0x1_0000_0000
                }
            });
    assert(vstd::wrapping::i32_specs::wrapping_add(
        vstd::wrapping::i32_specs::signed_crop(t),
        d[k],
    ) == vstd::wrapping::i32_specs::signed_crop(t + d[k])) by (nonlinear_arith)
        requires
            (c - t) % 0x1_0000_0000 == 0,
            i32::MIN <= c <= i32::MAX,
            i32::MIN <= d[k] <= i32::MAX;
}

/// Decoded metadata of one dense node.
pub struct SpecDenseNodeInfo {
    pub version: i32,
    pub timestamp: i64,
    pub changeset: i64,
    pub uid: i32,
    pub user_sid: i32,
    pub visible: bool,
}

/// The metadata of the `i`-th dense node: `version` is stored directly,
/// the next four columns are delta streams, and an absent visibility
/// bit means visible.
pub open spec fn spec_dense_info_at(di: SpecDenseInfo, i: int) -> SpecDenseNodeInfo {
    SpecDenseNodeInfo {
        version: di.version[i],
        timestamp: crop_total(di.timestamp, i + 1),
        changeset: crop_total(di.changeset, i + 1),
        uid: crop32_total(di.uid, i + 1),
        user_sid: crop32_total(di.user_sid, i + 1),
        visible: if i < di.visible.len() {
            di.visible[i]
        } else {
            true
        },
    }
}

/// The metadata columns of a dense message, or empty columns when it
/// carries none.
pub open spec fn spec_denseinfo_of(dn: SpecDenseNodes) -> SpecDenseInfo {
    match dn.denseinfo {
        Some(di) => di,
        None => SpecDenseInfo {
            version: Seq::empty(),
            timestamp: Seq::empty(),
            changeset: Seq::empty(),
            uid: Seq::empty(),
            user_sid: Seq::empty(),
            visible: Seq::empty(),
        },
    }
}

/// The decoded metadata of one dense node.
#[derive(Clone, Copy, Debug)]
pub struct DenseNodeInfo {
    version: i32,
    timestamp: i64,
    changeset: i64,
    uid: i32,
    user_sid: i32,
    visible: bool,
}

impl View for DenseNodeInfo {
    type V = SpecDenseNodeInfo;

    closed spec fn view(&self) -> SpecDenseNodeInfo {
        SpecDenseNodeInfo {
            version: self.version,
            timestamp: self.timestamp,
            changeset: self.changeset,
            uid: self.uid,
            user_sid: self.user_sid,
            visible: self.visible,
        }
    }
}

impl DenseNodeInfo {
    /// The node's version.
    pub fn version(&self) -> (r: i32)
        ensures
            r == self@.version,
    {
        self.version
    }

    /// The raw timestamp (multiply by the block's date granularity for
    /// milliseconds).
    pub fn timestamp(&self) -> (r: i64)
        ensures
            r == self@.timestamp,
    {
        self.timestamp
    }

    /// The changeset id.
    pub fn changeset(&self) -> (r: i64)
        ensures
            r == self@.changeset,
    {
        self.changeset
    }

    /// The user id.
    pub fn uid(&self) -> (r: i32)
        ensures
            r == self@.uid,
    {
        self.uid
    }

    /// The stringtable index of the user name.
    pub fn user_sid(&self) -> (r: i32)
        ensures
            r == self@.user_sid,
    {
        self.user_sid
    }

    /// The visibility bit; absent in the file means visible.
    pub fn visible(&self) -> (r: bool)
        ensures
            r == self@.visible,
    {
        self.visible
    }
}

/// One node out of a dense-node column.
pub struct DenseRawNode<'a> {
    block: &'a osmformat::PrimitiveBlock,
    dense: &'a osmformat::DenseNodes,
    /// The node id (the running sum of the id column).
    pub id: i64,
    lat: i64,
    lon: i64,
    kv_start: usize,
    kv_end: usize,
    info: Option<DenseNodeInfo>,
}

impl<'a> DenseRawNode<'a> {
    /// The block the node's strings and offsets live in.
    pub closed spec fn spec_block(self) -> SpecPrimitiveBlock {
        self.block@
    }

    /// The node id.
    pub closed spec fn spec_id(self) -> i64 {
        self.id
    }

    /// The node id (also available as the public `id` field).
    pub fn node_id(&self) -> (r: i64)
        ensures
            r == self.spec_id(),
    {
        self.id
    }

    /// The raw coordinates (running sums of the delta columns).
    pub closed spec fn spec_raw(self) -> (i64, i64) {
        (self.lat, self.lon)
    }

    /// This node's slice of the shared tag stream.
    pub closed spec fn spec_kv_range(self) -> (int, int) {
        (self.kv_start as int, self.kv_end as int)
    }

    /// The decoded metadata, absent when the metadata columns ran out.
    pub closed spec fn spec_info(self) -> Option<SpecDenseNodeInfo> {
        match self.info {
            Some(i) => Some(i@),
            None => None,
        }
    }

    /// The latitude in nanodegrees.
    pub fn nano_lat(&self) -> (r: i64)
        ensures
            r == nano_of(
                lat_offset_of(self.spec_block()),
                granularity_of(self.spec_block()),
                self.spec_raw().0,
            ),
    {
        nano_coord(
            self.block.lat_offset_or_default(),
            self.block.granularity_or_default(),
            self.lat,
        )
    }

    /// The latitude in decimicrodegrees, truncated toward zero.
    pub fn decimicro_lat(&self) -> (r: i32)
        ensures
            r == decimicro_of(
                nano_of(
                    lat_offset_of(self.spec_block()),
                    granularity_of(self.spec_block()),
                    self.spec_raw().0,
                ),
            ),
    {
        decimicro_coord(self.nano_lat())
    }

    /// The longitude in nanodegrees.
    pub fn nano_lon(&self) -> (r: i64)
        ensures
            r == nano_of(
                lon_offset_of(self.spec_block()),
                granularity_of(self.spec_block()),
                self.spec_raw().1,
            ),
    {
        nano_coord(
            self.block.lon_offset_or_default(),
            self.block.granularity_or_default(),
            self.lon,
        )
    }

    /// The longitude in decimicrodegrees, truncated toward zero.
    pub fn decimicro_lon(&self) -> (r: i32)
        ensures
            r == decimicro_of(
                nano_of(
                    lon_offset_of(self.spec_block()),
                    granularity_of(self.spec_block()),
                    self.spec_raw().1,
                ),
            ),
    {
        decimicro_coord(self.nano_lon())
    }

    /// The decoded metadata, absent when the metadata columns ran out.
    pub fn info(&self) -> (r: Option<DenseNodeInfo>)
        ensures
            match r {
                Some(i) => self.spec_info() == Some(i@),
                None => self.spec_info() is None,
            },
    {
        self.info
    }

    /// This node's raw tag index pairs out of the shared stream.
    pub fn raw_tags(&self) -> (r: DenseRawTagIter<'a>)
        ensures
            r@ == (self.spec_kv_range().0, self.spec_kv_range().1),
            r.spec_kv() == self.spec_block_kv(),
    {
        DenseRawTagIter { kv: &self.dense.keys_vals, pos: self.kv_start, end: self.kv_end }
    }

    /// The shared tag stream of the enclosing dense message.
    pub closed spec fn spec_block_kv(self) -> Seq<i32> {
        self.dense@.keys_vals
    }
}

/// An iterator over one dense node's raw tag index pairs.
pub struct DenseRawTagIter<'a> {
    kv: &'a Vec<i32>,
    pos: usize,
    end: usize,
}

impl<'a> View for DenseRawTagIter<'a> {
    type V = (int, int);

    closed spec fn view(&self) -> (int, int) {
        (self.pos as int, self.end as int)
    }
}

impl<'a> DenseRawTagIter<'a> {
    /// The tag stream the pairs are read from.
    pub closed spec fn spec_kv(self) -> Seq<i32> {
        self.kv@
    }

    /// The next raw pair (key index, value index), reinterpreted as
    /// unsigned as the stringtable indexing expects.
    pub fn next(&mut self) -> (r: Option<(u32, u32)>)
        ensures
            final(self).spec_kv() == old(self).spec_kv(),
            ({
                let (pos, end) = old(self)@;
                if pos + 1 < end && end <= old(self).spec_kv().len() {
                    r == Some(
                        (
                            i32_to_u32(old(self).spec_kv()[pos]),
                            i32_to_u32(old(self).spec_kv()[pos + 1]),
                        ),
                    ) && final(self)@ == (pos + 2, end)
                } else {
                    r is None && final(self)@ == old(self)@
                }
            }),
    {
        if self.end <= self.kv.len() && self.pos < self.end && self.end - self.pos >= 2 {
            let k = self.kv[self.pos];
            let v = self.kv[self.pos + 1];
            self.pos = self.pos + 2;
            Some((i32_as_u32(k), i32_as_u32(v)))
        } else {
            None
        }
    }
}

/// An iterator over the dense metadata columns.
pub struct DenseNodeInfoIter<'a> {
    dense: Option<&'a osmformat::DenseNodes>,
    pos: usize,
    ctimestamp: i64,
    cchangeset: i64,
    cuid: i32,
    cuser_sid: i32,
}

impl<'a> View for DenseNodeInfoIter<'a> {
    type V = (SpecDenseNodes, int);

    closed spec fn view(&self) -> (SpecDenseNodes, int) {
        (dense_msg_of(match self.dense {
            Some(d) => Some(d@),
            None => None,
        }), self.pos as int)
    }
}

impl<'a> DenseNodeInfoIter<'a> {
    pub closed spec fn wf(self) -> bool {
        let di = spec_denseinfo_of(self@.0);
        &&& self.pos <= dense_info_len(di)
        &&& self.ctimestamp == crop_total(di.timestamp, self.pos as int)
        &&& self.cchangeset == crop_total(di.changeset, self.pos as int)
        &&& self.cuid == crop32_total(di.uid, self.pos as int)
        &&& self.cuser_sid == crop32_total(di.user_sid, self.pos as int)
    }

    pub(crate) fn new(dense: &'a osmformat::DenseNodes) -> (r: DenseNodeInfoIter<'a>)
        ensures
            r.wf(),
            r@ == (dense@, 0int),
    {
        DenseNodeInfoIter {
            dense: Some(dense),
            pos: 0,
            ctimestamp: 0,
            cchangeset: 0,
            cuid: 0,
            cuser_sid: 0,
        }
    }

    /// The next node's metadata; `None` once any required column ran
    /// out.
    pub fn next(&mut self) -> (r: Option<DenseNodeInfo>)
        requires
            old(self).wf(),
        ensures
            final(self).wf(),
            ({
                let (dn, pos) = old(self)@;
                let di = spec_denseinfo_of(dn);
                if pos < dense_info_len(di) {
                    r matches Some(i) && i@ == spec_dense_info_at(di, pos) && final(self)@ == (
                    dn,
                    pos + 1,
                    )
                } else {
                    r is None && final(self)@ == old(self)@
                }
            }),
    {
        let d = match self.dense {
            Some(d) => d,
            None => {
                return None;
            }
        };
        let di = match &d.denseinfo {
            Some(di) => di,
            None => {
                return None;
            }
        };
        if self.pos < di.version.len() && self.pos < di.timestamp.len() && self.pos
            < di.changeset.len() && self.pos < di.uid.len() && self.pos < di.user_sid.len() {
            proof {
                crate::delta::lemma_crop_total_step(
                    spec_denseinfo_of(self@.0).timestamp,
                    self.pos as int,
                );
                crate::delta::lemma_crop_total_step(
                    spec_denseinfo_of(self@.0).changeset,
                    self.pos as int,
                );
                lemma_crop32_total_step(spec_denseinfo_of(self@.0).uid, self.pos as int);
                lemma_crop32_total_step(spec_denseinfo_of(self@.0).user_sid, self.pos as int);
            }
            let version = di.version[self.pos];
            self.ctimestamp = self.ctimestamp.wrapping_add(di.timestamp[self.pos]);
            self.cchangeset = self.cchangeset.wrapping_add(di.changeset[self.pos]);
            self.cuid = self.cuid.wrapping_add(di.uid[self.pos]);
            self.cuser_sid = self.cuser_sid.wrapping_add(di.user_sid[self.pos]);
            let visible = if self.pos < di.visible.len() {
                di.visible[self.pos]
            } else {
                true
            };
            self.pos = self.pos + 1;
            Some(
                DenseNodeInfo {
                    version,
                    timestamp: self.ctimestamp,
                    changeset: self.cchangeset,
                    uid: self.cuid,
                    user_sid: self.cuser_sid,
                    visible,
                },
            )
        } else {
            None
        }
    }
}

/// An iterator over the dense nodes of one group, decoding the three
/// coordinate delta columns, the metadata columns, and the shared tag
/// cursor.
pub struct DenseRawNodeIter<'a> {
    block: &'a osmformat::PrimitiveBlock,
    dense: Option<&'a osmformat::DenseNodes>,
    pos: usize,
    cid: i64,
    clat: i64,
    clon: i64,
    kv_pos: usize,
    info: DenseNodeInfoIter<'a>,
}

/// The dense message an optional reference stands for (an absent one is
/// an empty message).
pub open spec fn dense_msg_of(o: Option<SpecDenseNodes>) -> SpecDenseNodes {
    match o {
        Some(d) => d,
        None => SpecDenseNodes {
            id: Seq::empty(),
            denseinfo: None,
            lat: Seq::empty(),
            lon: Seq::empty(),
            keys_vals: Seq::empty(),
        },
    }
}

impl<'a> DenseRawNodeIter<'a> {
    pub closed spec fn spec_dense(self) -> SpecDenseNodes {
        dense_msg_of(match self.dense {
            Some(d) => Some(d@),
            None => None,
        })
    }

    pub closed spec fn wf(self) -> bool {
        let dn = self.spec_dense();
        &&& self.pos <= dn.id.len() && self.pos <= dn.lat.len() && self.pos <= dn.lon.len()
        &&& self.cid == crop_total(dn.id, self.pos as int)
        &&& self.clat == crop_total(dn.lat, self.pos as int)
        &&& self.clon == crop_total(dn.lon, self.pos as int)
        &&& self.kv_pos == kv_cursor(dn.keys_vals, self.pos as int)
        &&& self.kv_pos <= dn.keys_vals.len()
        &&& self.info.wf()
        &&& self.info@ == (dn, min(self.pos as int, dense_info_len(spec_denseinfo_of(dn))))
    }

    /// The block, the dense message, and how many nodes were yielded.
    pub closed spec fn spec_view(self) -> (SpecPrimitiveBlock, SpecDenseNodes, int) {
        (self.block@, self.spec_dense(), self.pos as int)
    }

    pub(crate) fn new(
        block: &'a osmformat::PrimitiveBlock,
        dense: Option<&'a osmformat::DenseNodes>,
    ) -> (r: DenseRawNodeIter<'a>)
        ensures
            r.wf(),
            r.spec_view() == (block@, dense_msg_of(match dense {
                Some(d) => Some(d@),
                None => None,
            }), 0int),
    {
        match dense {
            Some(d) => DenseRawNodeIter {
                block,
                dense: Some(d),
                pos: 0,
                cid: 0,
                clat: 0,
                clon: 0,
                kv_pos: 0,
                info: DenseNodeInfoIter::new(d),
            },
            None => DenseRawNodeIter {
                block,
                dense: None,
                pos: 0,
                cid: 0,
                clat: 0,
                clon: 0,
                kv_pos: 0,
                info: DenseNodeInfoIter {
                    dense: None,
                    pos: 0,
                    ctimestamp: 0,
                    cchangeset: 0,
                    cuid: 0,
                    cuser_sid: 0,
                },
            },
        }
    }

    /// The number of nodes left.
    pub fn size_hint(&self) -> (r: usize)
        requires
            self.wf(),
        ensures
            r == dense_len(self.spec_view().1) - self.spec_view().2,
    {
        let d = match self.dense {
            Some(d) => d,
            None => {
                return 0;
            }
        };
        let n1 = d.id.len();
        let n2 = d.lat.len();
        let n3 = d.lon.len();
        let n = if n1 <= n2 && n1 <= n3 {
            n1
        } else if n2 <= n3 {
            n2
        } else {
            n3
        };
        n - self.pos
    }

    /// The next dense node: the id and coordinate columns advance in
    /// step, the tag cursor skips this node's run, and the metadata
    /// columns advance alongside while they last.
    #[verifier::rlimit(100)]
    #[verifier::spinoff_prover]
    pub fn next(&mut self) -> (r: Option<DenseRawNode<'a>>)
        requires
            old(self).wf(),
        ensures
            final(self).wf(),
            ({
                let (b, dn, pos) = old(self).spec_view();
                if pos < dense_len(dn) {
                    r matches Some(node) && {
                        &&& node.spec_block() == b
                        &&& node.spec_block_kv() == dn.keys_vals
                        &&& node.spec_id() == delta_decoded(dn.id)[pos]
                        &&& node.spec_raw() == (
                            delta_decoded(dn.lat)[pos],
                            delta_decoded(dn.lon)[pos],
                        )
                        &&& node.spec_kv_range() == (
                            kv_cursor(dn.keys_vals, pos),
                            kv_pairs_end(dn.keys_vals, kv_cursor(dn.keys_vals, pos)),
                        )
                        &&& node.spec_info() == (if pos < dense_info_len(spec_denseinfo_of(dn)) {
                            Some(spec_dense_info_at(spec_denseinfo_of(dn), pos))
                        } else {
                            Option::<SpecDenseNodeInfo>::None
                        })
                        &&& final(self).spec_view() == (b, dn, pos + 1)
                    }
                } else {
                    r is None && final(self).spec_view() == old(self).spec_view()
                }
            }),
    {
        let d = match self.dense {
            Some(d) => d,
            None => {
                return None;
            }
        };
        if self.pos < d.id.len() && self.pos < d.lat.len() && self.pos < d.lon.len() {
            proof {
                crate::delta::lemma_crop_total_step(d@.id, self.pos as int);
                crate::delta::lemma_crop_total_step(d@.lat, self.pos as int);
                crate::delta::lemma_crop_total_step(d@.lon, self.pos as int);
            }
            self.cid = self.cid.wrapping_add(d.id[self.pos]);
            self.clat = self.clat.wrapping_add(d.lat[self.pos]);
            self.clon = self.clon.wrapping_add(d.lon[self.pos]);
            let info = self.info.next();
            let kv_start = self.kv_pos;
            let kv = &d.keys_vals;
            let n = kv.len();
            let mut e = kv_start;
            while n - e > 1 && kv[e] != 0
                invariant
                    kv_start <= e <= n == kv@.len(),
                    kv@ == self.spec_dense().keys_vals,
                    kv_pairs_end(kv@, kv_start as int) == kv_pairs_end(kv@, e as int),
                decreases n - e,
            {
                proof {
                    lemma_kv_pairs_end_bounds(kv@, e + 2);
                }
                e = e + 2;
            }
            let kv_end = e;
            let next_kv = if e < n {
                e + 1
            } else {
                e
            };
            proof {
                assert(kv_pairs_end(kv@, kv_end as int) == kv_end as int);
                assert(kv_next(kv@, kv_start as int) == next_kv as int);
            }
            self.kv_pos = next_kv;
            self.pos = self.pos + 1;
            Some(
                DenseRawNode {
                    block: self.block,
                    dense: d,
                    id: self.cid,
                    lat: self.clat,
                    lon: self.clon,
                    kv_start,
                    kv_end,
                    info,
                },
            )
        } else {
            None
        }
    }
}

/// How many zeros a tag stream holds from position `c` on.
pub open spec fn count_zeros_from(kv: Seq<i32>, c: int) -> int
    decreases kv.len() - c,
{
    if c < 0 || c >= kv.len() {
        0
    } else {
        (if kv[c] == 0 {
            1int
        } else {
            0int
        }) + count_zeros_from(kv, c + 1)
    }
}

/// How many zeros a tag stream holds.
pub open spec fn count_zeros(kv: Seq<i32>) -> int {
    count_zeros_from(kv, 0)
}

/// A pair area without zeros contributes no zeros to the count.
proof fn lemma_zeros_skip_pairs(kv: Seq<i32>, c: int, e: int)
    requires
        0 <= c <= e <= kv.len(),
        forall|j: int| c <= j < e ==> kv[j] != 0,
    ensures
        count_zeros_from(kv, c) == count_zeros_from(kv, e),
    decreases e - c,
{
    if c < e {
        lemma_zeros_skip_pairs(kv, c + 1, e);
    }
}

/// One run starting at `c` consumes exactly one zero when it ends at a
/// terminator and none when it runs off the end of the stream.
proof fn lemma_run_zero_count(kv: Seq<i32>, c: int)
    requires
        0 <= c <= kv.len(),
        forall|j: int| c <= j < kv_pairs_end(kv, c) ==> kv[j] != 0,
    ensures
        ({
            let e = kv_pairs_end(kv, c);
            let nx = kv_next(kv, c);
            count_zeros_from(kv, c) - count_zeros_from(kv, nx) == (if e < kv.len() && kv[e] == 0 {
                1int
            } else if e < kv.len() {
                0int
            } else {
                0int
            })
        }),
{
    let e = kv_pairs_end(kv, c);
    lemma_kv_pairs_end_bounds(kv, c);
    lemma_zeros_skip_pairs(kv, c, e);
}

/// Dense-tag alignment: when the tag stream is consumed exactly by `n`
/// nodes, each consuming at least one stream element past its pairs,
/// and zeros appear only as terminators, the stream holds one `0` per
/// node — except that the final node's terminator may be missing at the
/// end of the stream.
pub proof fn lemma_dense_tag_alignment(kv: Seq<i32>, n: int)
    requires
        0 <= n,
        kv_cursor(kv, n) == kv.len(),
        forall|k: int| 0 <= k < n ==> #[trigger] kv_cursor(kv, k) < kv_cursor(kv, k + 1),
        forall|k: int, j: int|
            #![trigger kv_cursor(kv, k), kv[j]]
            0 <= k < n && kv_cursor(kv, k) <= j < kv_pairs_end(kv, kv_cursor(kv, k)) ==> kv[j]
                != 0,
    ensures
        count_zeros(kv) == n || count_zeros(kv) == n - 1,
{
    lemma_dense_tag_alignment_rec(kv, n, 0);
}

/// From node `k` on: the zeros left in the suffix are one per remaining
/// node, possibly one less when the last run is unterminated.
proof fn lemma_dense_tag_alignment_rec(kv: Seq<i32>, n: int, k: int)
    requires
        0 <= k <= n,
        kv_cursor(kv, n) == kv.len(),
        forall|m: int| 0 <= m < n ==> #[trigger] kv_cursor(kv, m) < kv_cursor(kv, m + 1),
        forall|m: int, j: int|
            #![trigger kv_cursor(kv, m), kv[j]]
            0 <= m < n && kv_cursor(kv, m) <= j < kv_pairs_end(kv, kv_cursor(kv, m)) ==> kv[j]
                != 0,
    ensures
        count_zeros_from(kv, kv_cursor(kv, k)) == n - k || count_zeros_from(kv, kv_cursor(kv, k))
            == n - k - 1,
    decreases n - k,
{
    let c = kv_cursor(kv, k);
    lemma_kv_cursor_bounds(kv, k);
    if k == n {
        assert(count_zeros_from(kv, kv.len() as int) == 0);
    } else {
        let e = kv_pairs_end(kv, c);
        let nx = kv_next(kv, c);
        assert(kv_cursor(kv, k + 1) == nx);
        lemma_kv_pairs_end_bounds(kv, c);
        lemma_run_zero_count(kv, c);
        lemma_dense_tag_alignment_rec(kv, n, k + 1);
        if e >= kv.len() || kv[e] != 0 {
            // The run is unterminated: it must have run to the end of
            // the stream, so it is the last one that consumes anything.
            if e < kv.len() {
                // e is a lone trailing entry (no full pair left).
                assert(e + 1 >= kv.len());
                assert(nx == e + 1);
                assert(nx == kv.len());
            } else {
                assert(nx == e);
                assert(nx == kv.len());
            }
            assert(kv_cursor(kv, k + 1) == kv.len());
            assert(count_zeros_from(kv, kv.len() as int) == 0);
            // Every later node would consume nothing, contradicting the
            // strict-progress hypothesis unless k + 1 == n.
            if k + 1 < n {
                assert(kv_cursor(kv, k + 1) < kv_cursor(kv, k + 2));
                lemma_kv_cursor_bounds(kv, k + 2);
                assert(false);
            }
        }
    }
}

} // verus!
