//! Nodes, ways and relations: lifetime-bound views into one decoded
//! `PrimitiveBlock`, with verified delta decoding and stringtable
//! resolution.

use vstd::prelude::*;
use crate::block::{
    date_granularity_of, granularity_of, lat_offset_of, lon_offset_of, resolved, resolves,
    str_from_stringtable, get_stringtable_key_value,
};
use crate::delta::{crop_total, decimicro_coord, decimicro_of, delta_decoded, milli_of, nano_coord,
    nano_of};
use crate::block::PrimitiveGroup;
use crate::dense::{
    DenseRawNode, DenseRawNodeIter, SpecDenseNodeInfo, dense_info_len, dense_len, dense_msg_of,
    kv_cursor, kv_pairs_end, spec_dense_info_at, spec_denseinfo_of,
};
use crate::error::{Error, ErrorKind, new_error};
use crate::osmformat;
use crate::osmformat::{SpecDenseNodes, SpecNode, SpecPrimitiveBlock, SpecPrimitiveGroup,
    SpecRelation, SpecWay};

verus! {

/// The resolved tags of an element: each key/value index pair where both
/// sides resolve, in order; pairs that do not resolve are skipped.
pub open spec fn spec_tags_from(
    b: SpecPrimitiveBlock,
    keys: Seq<u32>,
    vals: Seq<u32>,
    pos: int,
) -> Seq<(Seq<char>, Seq<char>)>
    decreases vstd::math::min(keys.len() as int, vals.len() as int) - pos,
{
    let n = vstd::math::min(keys.len() as int, vals.len() as int);
    if pos < 0 || pos >= n {
        Seq::empty()
    } else if resolves(b, keys[pos] as int) && resolves(b, vals[pos] as int) {
        seq![(resolved(b, keys[pos] as int), resolved(b, vals[pos] as int))] + spec_tags_from(
            b,
            keys,
            vals,
            pos + 1,
        )
    } else {
        spec_tags_from(b, keys, vals, pos + 1)
    }
}

/// All resolved tags of an element.
pub open spec fn spec_tags(b: SpecPrimitiveBlock, keys: Seq<u32>, vals: Seq<u32>) -> Seq<
    (Seq<char>, Seq<char>),
> {
    spec_tags_from(b, keys, vals, 0)
}

/// An iterator over the resolved tags of an element.  A pair whose key
/// or value does not resolve (out of bounds, or not UTF-8) is skipped,
/// keeping the iterator total.
pub struct TagIter<'a> {
    block: &'a osmformat::PrimitiveBlock,
    keys: &'a Vec<u32>,
    vals: &'a Vec<u32>,
    pos: usize,
}

impl<'a> TagIter<'a> {
    pub(crate) fn new(
        block: &'a osmformat::PrimitiveBlock,
        keys: &'a Vec<u32>,
        vals: &'a Vec<u32>,
    ) -> (r: TagIter<'a>)
        ensures
            r.remaining() == spec_tags(block@, keys@, vals@),
    {
        TagIter { block, keys, vals, pos: 0 }
    }

    /// The tags this iterator has yet to yield.
    pub closed spec fn remaining(self) -> Seq<(Seq<char>, Seq<char>)> {
        spec_tags_from(self.block@, self.keys@, self.vals@, self.pos as int)
    }

    /// The next resolving tag pair.
    pub fn next(&mut self) -> (r: Option<(&'a str, &'a str)>)
        ensures
            r is None ==> old(self).remaining().len() == 0 && final(self).remaining()
                == old(self).remaining(),
            r matches Some(kv) ==> old(self).remaining().len() > 0 && (kv.0@, kv.1@)
                == old(self).remaining()[0] && final(self).remaining()
                == old(self).remaining().drop_first(),
    {
        loop
            invariant
                self.block == old(self).block,
                self.keys == old(self).keys,
                self.vals == old(self).vals,
                self.remaining() == old(self).remaining(),
            decreases vstd::math::min(self.keys@.len() as int, self.vals@.len() as int)
                - self.pos,
        {
            if self.pos >= self.keys.len() || self.pos >= self.vals.len() {
                return None;
            }
            let ki = self.keys[self.pos];
            let vi = self.vals[self.pos];
            let kv = get_stringtable_key_value(
                self.block,
                Some(ki as usize),
                Some(vi as usize),
            );
            self.pos = self.pos + 1;
            match kv {
                Some(p) => {
                    return Some(p);
                }
                None => (),
            }
        }
    }

    /// Collect the rest of the tags.
    pub fn collect_tags(&mut self) -> (r: Vec<(&'a str, &'a str)>)
        ensures
            r@.len() == old(self).remaining().len(),
            forall|i: int|
                0 <= i < r@.len() ==> (#[trigger] r@[i].0@, r@[i].1@) == old(self).remaining()[i],
            final(self).remaining().len() == 0,
    {
        let mut out: Vec<(&'a str, &'a str)> = Vec::new();
        loop
            invariant
                out@.len() + self.remaining().len() == old(self).remaining().len(),
                forall|i: int|
                    0 <= i < out@.len() ==> (#[trigger] out@[i].0@, out@[i].1@) == old(
                        self,
                    ).remaining()[i],
                forall|j: int|
                    0 <= j < self.remaining().len() ==> #[trigger] self.remaining()[j] == old(
                        self,
                    ).remaining()[out@.len() + j],
            decreases self.remaining().len(),
        {
            let ghost before = self.remaining();
            match self.next() {
                None => {
                    return out;
                }
                Some(p) => {
                    out.push(p);
                }
            }
        }
    }
}

/// An iterator over the raw stringtable index pairs of an element.
pub struct RawTagIter<'a> {
    keys: &'a Vec<u32>,
    vals: &'a Vec<u32>,
    pos: usize,
}

impl<'a> View for RawTagIter<'a> {
    type V = (Seq<u32>, Seq<u32>, int);

    closed spec fn view(&self) -> (Seq<u32>, Seq<u32>, int) {
        (self.keys@, self.vals@, self.pos as int)
    }
}

impl<'a> RawTagIter<'a> {
    pub(crate) fn new(keys: &'a Vec<u32>, vals: &'a Vec<u32>) -> (r: RawTagIter<'a>)
        ensures
            r@ == (keys@, vals@, 0int),
    {
        RawTagIter { keys, vals, pos: 0 }
    }

    /// The next raw index pair; ends at the shorter array.
    pub fn next(&mut self) -> (r: Option<(u32, u32)>)
        ensures
            ({
                let (keys, vals, pos) = old(self)@;
                if pos < keys.len() && pos < vals.len() {
                    r == Some((keys[pos], vals[pos])) && final(self)@ == (keys, vals, pos + 1)
                } else {
                    r is None && final(self)@ == old(self)@
                }
            }),
    {
        if self.pos < self.keys.len() && self.pos < self.vals.len() {
            let p = (self.keys[self.pos], self.vals[self.pos]);
            self.pos = self.pos + 1;
            Some(p)
        } else {
            None
        }
    }
}

/// Additional metadata an element may carry.
pub struct Info<'a> {
    block: &'a osmformat::PrimitiveBlock,
    info: Option<&'a osmformat::Info>,
}

/// The raw info message this view reads (all fields absent when the
/// element carries none).
pub open spec fn info_msg_of(i: Option<osmformat::Info>) -> osmformat::Info {
    match i {
        Some(m) => m,
        None => osmformat::Info {
            version: None,
            timestamp: None,
            changeset: None,
            uid: None,
            user_sid: None,
            visible: None,
        },
    }
}

impl<'a> View for Info<'a> {
    type V = (SpecPrimitiveBlock, osmformat::Info);

    closed spec fn view(&self) -> (SpecPrimitiveBlock, osmformat::Info) {
        (self.block@, info_msg_of(match self.info {
            Some(i) => Some(*i),
            None => None,
        }))
    }
}

impl<'a> Info<'a> {
    pub(crate) fn new(
        block: &'a osmformat::PrimitiveBlock,
        info: Option<&'a osmformat::Info>,
    ) -> (r: Info<'a>)
        ensures
            r@ == (block@, info_msg_of(match info {
                Some(i) => Some(*i),
                None => None,
            })),
    {
        Info { block, info }
    }


    /// The element's version, if set.
    pub fn version(&self) -> (r: Option<i32>)
        ensures
            r == self@.1.version,
    {
        match self.info {
            Some(i) => i.version,
            None => None,
        }
    }

    /// The timestamp in milliseconds since the epoch, if set.
    pub fn milli_timestamp(&self) -> (r: Option<i64>)
        ensures
            match self@.1.timestamp {
                Some(ts) => r == Some(milli_of(ts, date_granularity_of(self@.0))),
                None => r is None,
            },
    {
        match self.info {
            Some(i) => match i.timestamp {
                Some(ts) => Some(ts.wrapping_mul(self.block.date_granularity_or_default() as i64)),
                None => None,
            },
            None => None,
        }
    }

    /// The changeset id, if set.
    pub fn changeset(&self) -> (r: Option<i64>)
        ensures
            r == self@.1.changeset,
    {
        match self.info {
            Some(i) => i.changeset,
            None => None,
        }
    }

    /// The user id, if set.
    pub fn uid(&self) -> (r: Option<i32>)
        ensures
            r == self@.1.uid,
    {
        match self.info {
            Some(i) => i.uid,
            None => None,
        }
    }

    /// The user name, resolved from the stringtable, if set.
    pub fn user(&self) -> (r: Option<Result<&'a str, Error>>)
        ensures
            match self@.1.user_sid {
                Some(sid) => r matches Some(inner) && (inner matches Ok(s) ==> resolves(
                    self@.0,
                    sid as int,
                ) && s@ == resolved(self@.0, sid as int)) && (inner is Err ==> !resolves(
                    self@.0,
                    sid as int,
                )),
                None => r is None,
            },
    {
        match self.info {
            Some(i) => match i.user_sid {
                Some(sid) => Some(str_from_stringtable(self.block, sid as usize)),
                None => None,
            },
            None => None,
        }
    }

    /// The visibility of the element; absent means visible.
    pub fn visible(&self) -> (r: bool)
        ensures
            r == match self@.1.visible {
                Some(v) => v,
                None => true,
            },
    {
        match self.info {
            Some(i) => match i.visible {
                Some(v) => v,
                None => true,
            },
            None => true,
        }
    }

    /// Whether the element was deleted: the inverse of `visible`.
    pub fn deleted(&self) -> (r: bool)
        ensures
            r == !match self@.1.visible {
                Some(v) => v,
                None => true,
            },
    {
        !self.visible()
    }
}

/// An OpenStreetMap node element stored sparsely.
#[derive(Clone, Copy)]
pub struct Node<'a> {
    block: &'a osmformat::PrimitiveBlock,
    osmnode: &'a osmformat::Node,
}

impl<'a> View for Node<'a> {
    type V = (SpecPrimitiveBlock, SpecNode);

    closed spec fn view(&self) -> (SpecPrimitiveBlock, SpecNode) {
        (self.block@, self.osmnode@)
    }
}

/// A field's value or the Protocol Buffer default zero.
pub open spec fn or_zero_i64(v: Option<i64>) -> i64 {
    match v {
        Some(x) => x,
        None => 0,
    }
}

impl<'a> Node<'a> {
    pub(crate) fn new(
        block: &'a osmformat::PrimitiveBlock,
        osmnode: &'a osmformat::Node,
    ) -> (r: Node<'a>)
        ensures
            r@ == (block@, osmnode@),
    {
        Node { block, osmnode }
    }

    /// The node id.
    pub fn id(&self) -> (r: i64)
        ensures
            r == or_zero_i64(self@.1.id),
    {
        match self.osmnode.id {
            Some(v) => v,
            None => 0,
        }
    }

    /// The resolved tags of this node.
    pub fn tags(&self) -> (r: TagIter<'a>)
        ensures
            r.remaining() == spec_tags(self@.0, self@.1.keys, self@.1.vals),
    {
        TagIter::new(self.block, &self.osmnode.keys, &self.osmnode.vals)
    }

    /// The raw stringtable index pairs of this node's tags.
    pub fn raw_tags(&self) -> (r: RawTagIter<'a>)
        ensures
            r@ == (self@.1.keys, self@.1.vals, 0int),
    {
        RawTagIter::new(&self.osmnode.keys, &self.osmnode.vals)
    }

    /// Additional metadata for this node.
    pub fn info(&self) -> (r: Info<'a>)
        ensures
            r@ == (self@.0, info_msg_of(self@.1.info)),
    {
        Info::new(self.block, self.osmnode.info.as_ref())
    }

    /// The latitude in nanodegrees.
    pub fn nano_lat(&self) -> (r: i64)
        ensures
            r == nano_of(lat_offset_of(self@.0), granularity_of(self@.0), or_zero_i64(self@.1.lat)),
    {
        let raw = match self.osmnode.lat {
            Some(v) => v,
            None => 0,
        };
        nano_coord(self.block.lat_offset_or_default(), self.block.granularity_or_default(), raw)
    }

    /// The latitude in decimicrodegrees (1e-7 degrees), truncated toward
    /// zero.
    pub fn decimicro_lat(&self) -> (r: i32)
        ensures
            r == decimicro_of(
                nano_of(lat_offset_of(self@.0), granularity_of(self@.0), or_zero_i64(self@.1.lat)),
            ),
    {
        decimicro_coord(self.nano_lat())
    }

    /// The longitude in nanodegrees.
    pub fn nano_lon(&self) -> (r: i64)
        ensures
            r == nano_of(lon_offset_of(self@.0), granularity_of(self@.0), or_zero_i64(self@.1.lon)),
    {
        let raw = match self.osmnode.lon {
            Some(v) => v,
            None => 0,
        };
        nano_coord(self.block.lon_offset_or_default(), self.block.granularity_or_default(), raw)
    }

    /// The longitude in decimicrodegrees, truncated toward zero.
    pub fn decimicro_lon(&self) -> (r: i32)
        ensures
            r == decimicro_of(
                nano_of(lon_offset_of(self@.0), granularity_of(self@.0), or_zero_i64(self@.1.lon)),
            ),
    {
        decimicro_coord(self.nano_lon())
    }
}

/// An iterator over the delta-decoded node references of a way.
pub struct WayRefIter<'a> {
    deltas: &'a Vec<i64>,
    pos: usize,
    current: i64,
}

impl<'a> View for WayRefIter<'a> {
    type V = (Seq<i64>, int);

    closed spec fn view(&self) -> (Seq<i64>, int) {
        (self.deltas@, self.pos as int)
    }
}

impl<'a> WayRefIter<'a> {
    /// The decoder's accumulator matches the wrapped prefix sum.
    pub closed spec fn wf(self) -> bool {
        &&& self.pos <= self.deltas@.len()
        &&& self.current == crop_total(self.deltas@, self.pos as int)
    }

    pub(crate) fn new(deltas: &'a Vec<i64>) -> (r: WayRefIter<'a>)
        ensures
            r.wf(),
            r@ == (deltas@, 0int),
    {
        WayRefIter { deltas, pos: 0, current: 0 }
    }

    /// The next absolute node id: the wrapped running sum of the deltas.
    pub fn next(&mut self) -> (r: Option<i64>)
        requires
            old(self).wf(),
        ensures
            final(self).wf(),
            ({
                let (d, pos) = old(self)@;
                if pos < d.len() {
                    r == Some(delta_decoded(d)[pos]) && final(self)@ == (d, pos + 1)
                } else {
                    r is None && final(self)@ == old(self)@
                }
            }),
    {
        if self.pos < self.deltas.len() {
            proof {
                crate::delta::lemma_crop_total_step(self.deltas@, self.pos as int);
            }
            self.current = self.current.wrapping_add(self.deltas[self.pos]);
            self.pos = self.pos + 1;
            Some(self.current)
        } else {
            None
        }
    }

    /// Collect the remaining references.
    pub fn collect_refs(&mut self) -> (r: Vec<i64>)
        requires
            old(self).wf(),
        ensures
            ({
                let (d, pos) = old(self)@;
                r@ == delta_decoded(d).subrange(pos, d.len() as int)
            }),
    {
        let mut out: Vec<i64> = Vec::new();
        loop
            invariant
                self.wf(),
                self@.0 == old(self)@.0,
                old(self)@.1 <= self@.1 <= self@.0.len(),
                out@.len() == self@.1 - old(self)@.1,
                out@ == delta_decoded(self@.0).subrange(old(self)@.1, self@.1),
            decreases self@.0.len() - self@.1,
        {
            match self.next() {
                None => {
                    return out;
                }
                Some(v) => {
                    out.push(v);
                    proof {
                        assert(out@ =~= delta_decoded(self@.0).subrange(old(self)@.1, self@.1));
                    }
                }
            }
        }
    }
}

/// One node location carried on a way (nanodegree coordinates).
pub struct WayNodeLocation {
    lat: i64,
    lon: i64,
}

impl View for WayNodeLocation {
    type V = (i64, i64);

    closed spec fn view(&self) -> (i64, i64) {
        (self.lat, self.lon)
    }
}

impl WayNodeLocation {
    /// The latitude in nanodegrees.
    pub fn nano_lat(&self) -> (r: i64)
        ensures
            r == self@.0,
    {
        self.lat
    }

    /// The latitude in decimicrodegrees, truncated toward zero.
    pub fn decimicro_lat(&self) -> (r: i32)
        ensures
            r == decimicro_of(self@.0),
    {
        decimicro_coord(self.lat)
    }

    /// The longitude in nanodegrees.
    pub fn nano_lon(&self) -> (r: i64)
        ensures
            r == self@.1,
    {
        self.lon
    }

    /// The longitude in decimicrodegrees, truncated toward zero.
    pub fn decimicro_lon(&self) -> (r: i32)
        ensures
            r == decimicro_of(self@.1),
    {
        decimicro_coord(self.lon)
    }
}

/// The location a way's `i`-th delta pair decodes to.
pub open spec fn spec_way_location(b: SpecPrimitiveBlock, w: SpecWay, i: int) -> (i64, i64) {
    (
        nano_of(lat_offset_of(b), granularity_of(b), crop_total(w.lat, i + 1)),
        nano_of(lon_offset_of(b), granularity_of(b), crop_total(w.lon, i + 1)),
    )
}

/// An iterator over a way's node locations, present when the file
/// carries the optional locations-on-ways feature.
pub struct WayNodeLocationsIter<'a> {
    block: &'a osmformat::PrimitiveBlock,
    way: &'a osmformat::Way,
    pos: usize,
    clat: i64,
    clon: i64,
}

impl<'a> View for WayNodeLocationsIter<'a> {
    type V = (SpecPrimitiveBlock, SpecWay, int);

    closed spec fn view(&self) -> (SpecPrimitiveBlock, SpecWay, int) {
        (self.block@, self.way@, self.pos as int)
    }
}

impl<'a> WayNodeLocationsIter<'a> {
    pub closed spec fn wf(self) -> bool {
        &&& self.pos <= self.way@.lat.len()
        &&& self.pos <= self.way@.lon.len()
        &&& self.clat == crop_total(self.way@.lat, self.pos as int)
        &&& self.clon == crop_total(self.way@.lon, self.pos as int)
    }

    pub(crate) fn new(
        block: &'a osmformat::PrimitiveBlock,
        way: &'a osmformat::Way,
    ) -> (r: WayNodeLocationsIter<'a>)
        ensures
            r.wf(),
            r@ == (block@, way@, 0int),
    {
        WayNodeLocationsIter { block, way, pos: 0, clat: 0, clon: 0 }
    }

    /// The next location: both delta streams advance in step.
    pub fn next(&mut self) -> (r: Option<WayNodeLocation>)
        requires
            old(self).wf(),
        ensures
            final(self).wf(),
            ({
                let (b, w, pos) = old(self)@;
                if pos < w.lat.len() && pos < w.lon.len() {
                    r matches Some(loc) && loc@ == spec_way_location(b, w, pos) && final(self)@
                        == (b, w, pos + 1)
                } else {
                    r is None && final(self)@ == old(self)@
                }
            }),
    {
        if self.pos < self.way.lat.len() && self.pos < self.way.lon.len() {
            proof {
                crate::delta::lemma_crop_total_step(self.way@.lat, self.pos as int);
                crate::delta::lemma_crop_total_step(self.way@.lon, self.pos as int);
            }
            self.clat = self.clat.wrapping_add(self.way.lat[self.pos]);
            self.clon = self.clon.wrapping_add(self.way.lon[self.pos]);
            self.pos = self.pos + 1;
            let lat = nano_coord(
                self.block.lat_offset_or_default(),
                self.block.granularity_or_default(),
                self.clat,
            );
            let lon = nano_coord(
                self.block.lon_offset_or_default(),
                self.block.granularity_or_default(),
                self.clon,
            );
            Some(WayNodeLocation { lat, lon })
        } else {
            None
        }
    }
}

/// An OpenStreetMap way element: an ordered list of node references.
#[derive(Clone, Copy)]
pub struct Way<'a> {
    block: &'a osmformat::PrimitiveBlock,
    osmway: &'a osmformat::Way,
}

impl<'a> View for Way<'a> {
    type V = (SpecPrimitiveBlock, SpecWay);

    closed spec fn view(&self) -> (SpecPrimitiveBlock, SpecWay) {
        (self.block@, self.osmway@)
    }
}

impl<'a> Way<'a> {
    pub(crate) fn new(block: &'a osmformat::PrimitiveBlock, osmway: &'a osmformat::Way) -> (r:
        Way<'a>)
        ensures
            r@ == (block@, osmway@),
    {
        Way { block, osmway }
    }

    /// The way id.
    pub fn id(&self) -> (r: i64)
        ensures
            r == or_zero_i64(self@.1.id),
    {
        match self.osmway.id {
            Some(v) => v,
            None => 0,
        }
    }

    /// The resolved tags of this way.
    pub fn tags(&self) -> (r: TagIter<'a>)
        ensures
            r.remaining() == spec_tags(self@.0, self@.1.keys, self@.1.vals),
    {
        TagIter::new(self.block, &self.osmway.keys, &self.osmway.vals)
    }

    /// The raw stringtable index pairs of this way's tags.
    pub fn raw_tags(&self) -> (r: RawTagIter<'a>)
        ensures
            r@ == (self@.1.keys, self@.1.vals, 0int),
    {
        RawTagIter::new(&self.osmway.keys, &self.osmway.vals)
    }

    /// Additional metadata for this way.
    pub fn info(&self) -> (r: Info<'a>)
        ensures
            r@ == (self@.0, info_msg_of(self@.1.info)),
    {
        Info::new(self.block, self.osmway.info.as_ref())
    }

    /// The delta-decoded node references of this way.
    pub fn refs(&self) -> (r: WayRefIter<'a>)
        ensures
            r.wf(),
            r@ == (self@.1.refs, 0int),
    {
        WayRefIter::new(&self.osmway.refs)
    }

    /// The raw, still delta-coded reference array.
    pub fn raw_refs(&self) -> (r: &'a [i64])
        ensures
            r@ == self@.1.refs,
    {
        self.osmway.refs.as_slice()
    }

    /// The way's node locations; empty unless the file carries the
    /// optional locations-on-ways feature.
    pub fn node_locations(&self) -> (r: WayNodeLocationsIter<'a>)
        ensures
            r.wf(),
            r@ == (self@.0, self@.1, 0int),
    {
        WayNodeLocationsIter::new(self.block, self.osmway)
    }
}

/// The element type of a relation member.
#[derive(Clone, Copy, Debug, Eq, PartialEq, Structural)]
pub enum RelMemberType {
    Node,
    Way,
    Relation,
}

/// The member type a raw enum value decodes to, if it is known.
pub open spec fn spec_member_type(v: i32) -> Option<RelMemberType> {
    if v == 0 {
        Some(RelMemberType::Node)
    } else if v == 1 {
        Some(RelMemberType::Way)
    } else if v == 2 {
        Some(RelMemberType::Relation)
    } else {
        None
    }
}

/// A member of a relation: a role, a member id, and the member's type.
pub struct RelMember<'a> {
    block: &'a osmformat::PrimitiveBlock,
    /// The stringtable index of the member's role.
    pub role_sid: i32,
    /// The absolute id of the referenced element.
    pub member_id: i64,
    /// The type of the referenced element.
    pub member_type: RelMemberType,
}

impl<'a> RelMember<'a> {
    pub(crate) fn new(
        block: &'a osmformat::PrimitiveBlock,
        role_sid: i32,
        member_id: i64,
        member_type: RelMemberType,
    ) -> (r: RelMember<'a>)
        ensures
            r@ == (block@, role_sid, member_id, member_type),
    {
        RelMember { block, role_sid, member_id, member_type }
    }

    /// The role of this member, resolved from the stringtable.
    pub fn role(&self) -> (r: Result<&'a str, Error>)
        ensures
            self@.1 >= 0 ==> {
                &&& r is Ok <==> resolves(self@.0, self@.1 as int)
                &&& (r matches Ok(s) ==> s@ == resolved(self@.0, self@.1 as int))
            },
            self@.1 < 0 ==> r is Err,
    {
        if self.role_sid >= 0 {
            str_from_stringtable(self.block, self.role_sid as usize)
        } else {
            Err(new_error(ErrorKind::StringtableIndexOutOfBounds { index: usize::MAX }))
        }
    }
}

// `block` is private; expose the view relation to this crate's proofs.
impl<'a> View for RelMember<'a> {
    type V = (SpecPrimitiveBlock, i32, i64, RelMemberType);

    closed spec fn view(&self) -> (SpecPrimitiveBlock, i32, i64, RelMemberType) {
        (self.block@, self.role_sid, self.member_id, self.member_type)
    }
}

/// An iterator over the members of a relation.  A member whose type
/// value is outside the known set is surfaced as an error.
pub struct RelMemberIter<'a> {
    block: &'a osmformat::PrimitiveBlock,
    rel: &'a osmformat::Relation,
    pos: usize,
    current_member_id: i64,
}

impl<'a> View for RelMemberIter<'a> {
    type V = (SpecPrimitiveBlock, SpecRelation, int);

    closed spec fn view(&self) -> (SpecPrimitiveBlock, SpecRelation, int) {
        (self.block@, self.rel@, self.pos as int)
    }
}

impl<'a> RelMemberIter<'a> {
    pub closed spec fn wf(self) -> bool {
        &&& self.pos <= self.rel@.memids.len()
        &&& self.current_member_id == crop_total(self.rel@.memids, self.pos as int)
    }

    pub(crate) fn new(
        block: &'a osmformat::PrimitiveBlock,
        rel: &'a osmformat::Relation,
    ) -> (r: RelMemberIter<'a>)
        ensures
            r.wf(),
            r@ == (block@, rel@, 0int),
    {
        RelMemberIter { block, rel, pos: 0, current_member_id: 0 }
    }

    /// The next member: the three parallel arrays advance in step, and
    /// the member id is the wrapped running sum of `memids`.
    pub fn next(&mut self) -> (r: Option<Result<RelMember<'a>, Error>>)
        requires
            old(self).wf(),
        ensures
            final(self).wf(),
            ({
                let (b, rel, pos) = old(self)@;
                if pos < rel.roles_sid.len() && pos < rel.memids.len() && pos < rel.types.len() {
                    match spec_member_type(rel.types[pos]) {
                        Some(mt) => r matches Some(Ok(m)) && m@ == (
                        b,
                        rel.roles_sid[pos],
                        delta_decoded(rel.memids)[pos],
                        mt,
                        ) && final(self)@ == (b, rel, pos + 1),
                        None => r matches Some(Err(_)) && final(self)@ == (b, rel, pos + 1),
                    }
                } else {
                    r is None && final(self)@ == old(self)@
                }
            }),
    {
        if self.pos < self.rel.roles_sid.len() && self.pos < self.rel.memids.len() && self.pos
            < self.rel.types.len() {
            proof {
                crate::delta::lemma_crop_total_step(self.rel@.memids, self.pos as int);
            }
            self.current_member_id = self.current_member_id.wrapping_add(
                self.rel.memids[self.pos],
            );
            let role_sid = self.rel.roles_sid[self.pos];
            let tv = self.rel.types[self.pos];
            self.pos = self.pos + 1;
            let mt = if tv == 0 {
                RelMemberType::Node
            } else if tv == 1 {
                RelMemberType::Way
            } else if tv == 2 {
                RelMemberType::Relation
            } else {
                return Some(
                    Err(
                        new_error(
                            crate::error::ErrorKind::Protobuf {
                                location: crate::error::ProtobufLocation::BlobContent,
                            },
                        ),
                    ),
                );
            };
            Some(
                Ok(
                    RelMember {
                        block: self.block,
                        role_sid,
                        member_id: self.current_member_id,
                        member_type: mt,
                    },
                ),
            )
        } else {
            None
        }
    }
}

/// An OpenStreetMap relation element: an ordered list of typed members.
#[derive(Clone, Copy)]
pub struct Relation<'a> {
    block: &'a osmformat::PrimitiveBlock,
    osmrel: &'a osmformat::Relation,
}

impl<'a> View for Relation<'a> {
    type V = (SpecPrimitiveBlock, SpecRelation);

    closed spec fn view(&self) -> (SpecPrimitiveBlock, SpecRelation) {
        (self.block@, self.osmrel@)
    }
}

impl<'a> Relation<'a> {
    pub(crate) fn new(
        block: &'a osmformat::PrimitiveBlock,
        osmrel: &'a osmformat::Relation,
    ) -> (r: Relation<'a>)
        ensures
            r@ == (block@, osmrel@),
    {
        Relation { block, osmrel }
    }

    /// The relation id.
    pub fn id(&self) -> (r: i64)
        ensures
            r == or_zero_i64(self@.1.id),
    {
        match self.osmrel.id {
            Some(v) => v,
            None => 0,
        }
    }

    /// The resolved tags of this relation.
    pub fn tags(&self) -> (r: TagIter<'a>)
        ensures
            r.remaining() == spec_tags(self@.0, self@.1.keys, self@.1.vals),
    {
        TagIter::new(self.block, &self.osmrel.keys, &self.osmrel.vals)
    }

    /// The raw stringtable index pairs of this relation's tags.
    pub fn raw_tags(&self) -> (r: RawTagIter<'a>)
        ensures
            r@ == (self@.1.keys, self@.1.vals, 0int),
    {
        RawTagIter::new(&self.osmrel.keys, &self.osmrel.vals)
    }

    /// Additional metadata for this relation.
    pub fn info(&self) -> (r: Info<'a>)
        ensures
            r@ == (self@.0, info_msg_of(self@.1.info)),
    {
        Info::new(self.block, self.osmrel.info.as_ref())
    }

    /// The members of this relation, in order.
    pub fn members(&self) -> (r: RelMemberIter<'a>)
        ensures
            r.wf(),
            r@ == (self@.0, self@.1, 0int),
    {
        RelMemberIter::new(self.block, self.osmrel)
    }
}

/// An enum over the OSM core elements: nodes (sparse or dense), ways and
/// relations.
pub enum Element<'a> {
    /// A sparsely stored node.
    Node(Node<'a>),
    /// A node from a dense-node column; same data, different storage.
    DenseNode(DenseRawNode<'a>),
    /// A way.
    Way(Way<'a>),
    /// A relation.
    Relation(Relation<'a>),
}

/// Mathematical image of one node taken out of a dense-node column:
/// everything the handed-out value lets a caller observe.
pub struct SpecDenseElement {
    /// The enclosing block.
    pub block: SpecPrimitiveBlock,
    /// The delta-decoded node id.
    pub id: i64,
    /// The delta-decoded raw latitude.
    pub raw_lat: i64,
    /// The delta-decoded raw longitude.
    pub raw_lon: i64,
    /// The group's shared tag stream.
    pub kv: Seq<i32>,
    /// Where this node's tag pairs start in the stream.
    pub kv_start: int,
    /// Where this node's tag pairs end.
    pub kv_end: int,
    /// The decoded metadata, absent when the metadata columns ran out.
    pub info: Option<SpecDenseNodeInfo>,
}

/// Mathematical image of one element.
pub enum SpecElement {
    /// A sparse node with its enclosing block.
    Node(SpecPrimitiveBlock, SpecNode),
    /// A dense node, fully decoded.
    DenseNode(SpecDenseElement),
    /// A way with its enclosing block.
    Way(SpecPrimitiveBlock, SpecWay),
    /// A relation with its enclosing block.
    Relation(SpecPrimitiveBlock, SpecRelation),
}

/// The mathematical image of a handed-out element.
pub open spec fn spec_element_of(e: Element<'_>) -> SpecElement {
    match e {
        Element::Node(n) => SpecElement::Node(n@.0, n@.1),
        Element::DenseNode(d) => SpecElement::DenseNode(
            SpecDenseElement {
                block: d.spec_block(),
                id: d.spec_id(),
                raw_lat: d.spec_raw().0,
                raw_lon: d.spec_raw().1,
                kv: d.spec_block_kv(),
                kv_start: d.spec_kv_range().0,
                kv_end: d.spec_kv_range().1,
                info: d.spec_info(),
            },
        ),
        Element::Way(w) => SpecElement::Way(w@.0, w@.1),
        Element::Relation(r) => SpecElement::Relation(r@.0, r@.1),
    }
}

/// The `i`-th node of a dense message, decoded: delta sums for id and
/// coordinates, the tag cursor's run, the metadata while it lasts.
pub open spec fn spec_dense_element_at(b: SpecPrimitiveBlock, dn: SpecDenseNodes, i: int)
    -> SpecElement {
    SpecElement::DenseNode(
        SpecDenseElement {
            block: b,
            id: delta_decoded(dn.id)[i],
            raw_lat: delta_decoded(dn.lat)[i],
            raw_lon: delta_decoded(dn.lon)[i],
            kv: dn.keys_vals,
            kv_start: kv_cursor(dn.keys_vals, i),
            kv_end: kv_pairs_end(dn.keys_vals, kv_cursor(dn.keys_vals, i)),
            info: if i < dense_info_len(spec_denseinfo_of(dn)) {
                Some(spec_dense_info_at(spec_denseinfo_of(dn), i))
            } else {
                None
            },
        },
    )
}

/// All nodes of a dense message, decoded, in column order.
pub open spec fn spec_dense_elements(b: SpecPrimitiveBlock, dn: SpecDenseNodes) -> Seq<
    SpecElement,
> {
    Seq::new(dense_len(dn) as nat, |i: int| spec_dense_element_at(b, dn, i))
}

/// All elements of one group, in hand-out order: dense nodes first, then
/// sparse nodes, ways, relations.
pub open spec fn spec_group_elements(b: SpecPrimitiveBlock, g: SpecPrimitiveGroup) -> Seq<
    SpecElement,
> {
    spec_dense_elements(b, dense_msg_of(g.dense)) + Seq::new(
        g.nodes.len(),
        |i: int| SpecElement::Node(b, g.nodes[i]),
    ) + Seq::new(g.ways.len(), |i: int| SpecElement::Way(b, g.ways[i])) + Seq::new(
        g.relations.len(),
        |i: int| SpecElement::Relation(b, g.relations[i]),
    )
}

/// The elements of a list of groups, concatenated in order.
pub open spec fn spec_groups_elements(b: SpecPrimitiveBlock, gs: Seq<SpecPrimitiveGroup>) -> Seq<
    SpecElement,
>
    decreases gs.len(),
{
    if gs.len() == 0 {
        Seq::empty()
    } else {
        spec_groups_elements(b, gs.drop_last()) + spec_group_elements(b, gs.last())
    }
}

/// All elements of a block, in hand-out order.
pub open spec fn spec_block_elements(b: SpecPrimitiveBlock) -> Seq<SpecElement> {
    spec_groups_elements(b, b.primitivegroup)
}


impl<'a> PrimitiveGroup<'a> {
    /// The sparse nodes in this group, in order.
    pub fn nodes(&self) -> (r: Vec<Node<'a>>)
        ensures
            r@.len() == self@.1.nodes.len(),
            forall|i: int|
                0 <= i < r@.len() ==> #[trigger] r@[i]@ == (self@.0, self@.1.nodes[i]),
    {
        let n = self.group.nodes.len();
        let mut out: Vec<Node<'a>> = Vec::new();
        let mut i: usize = 0;
        while i < n
            invariant
                i <= n == self.group.nodes@.len(),
                out@.len() == i,
                self@.1.nodes == crate::strutil::seq_view(self.group.nodes@),
                forall|k: int|
                    0 <= k < i ==> #[trigger] out@[k]@ == (self@.0, self@.1.nodes[k]),
            decreases n - i,
        {
            out.push(Node::new(self.block, &self.group.nodes[i]));
            i += 1;
        }
        out
    }

    /// The dense nodes in this group.
    pub fn dense_nodes(&self) -> (r: DenseRawNodeIter<'a>)
        ensures
            r.wf(),
            r.spec_view() == (self@.0, dense_msg_of(self@.1.dense), 0int),
    {
        DenseRawNodeIter::new(self.block, self.group.dense.as_ref())
    }

    /// The ways in this group, in order.
    pub fn ways(&self) -> (r: Vec<Way<'a>>)
        ensures
            r@.len() == self@.1.ways.len(),
            forall|i: int| 0 <= i < r@.len() ==> #[trigger] r@[i]@ == (self@.0, self@.1.ways[i]),
    {
        let n = self.group.ways.len();
        let mut out: Vec<Way<'a>> = Vec::new();
        let mut i: usize = 0;
        while i < n
            invariant
                i <= n == self.group.ways@.len(),
                out@.len() == i,
                self@.1.ways == crate::strutil::seq_view(self.group.ways@),
                forall|k: int| 0 <= k < i ==> #[trigger] out@[k]@ == (self@.0, self@.1.ways[k]),
            decreases n - i,
        {
            out.push(Way::new(self.block, &self.group.ways[i]));
            i += 1;
        }
        out
    }

    /// The relations in this group, in order.
    pub fn relations(&self) -> (r: Vec<Relation<'a>>)
        ensures
            r@.len() == self@.1.relations.len(),
            forall|i: int|
                0 <= i < r@.len() ==> #[trigger] r@[i]@ == (self@.0, self@.1.relations[i]),
    {
        let n = self.group.relations.len();
        let mut out: Vec<Relation<'a>> = Vec::new();
        let mut i: usize = 0;
        while i < n
            invariant
                i <= n == self.group.relations@.len(),
                out@.len() == i,
                self@.1.relations == crate::strutil::seq_view(self.group.relations@),
                forall|k: int|
                    0 <= k < i ==> #[trigger] out@[k]@ == (self@.0, self@.1.relations[k]),
            decreases n - i,
        {
            out.push(Relation::new(self.block, &self.group.relations[i]));
            i += 1;
        }
        out
    }
}

} // verus!
