//! The user-facing element readers: sequential `for_each` and the
//! map/reduce pipeline, with the equivalence law between the two.

use vstd::prelude::*;
use crate::blob::{
    BlobDecode, BlobReader, SpecBlobReader, SpecBlobRead, spec_payload_ok, spec_read_blob,
};
use crate::block::PrimitiveBlock;
use crate::elements::{
    Element, SpecElement, spec_block_elements, spec_dense_element_at, spec_dense_elements,
    spec_element_of, spec_group_elements, spec_groups_elements,
};
use crate::dense::dense_len;
use crate::error::Error;
use crate::fileformat::{SpecBlob, SpecBlobHeader};
use crate::osmformat;
use crate::osmformat::SpecPrimitiveGroup;

verus! {

/// A callback invoked once per element, in file order.  The log is the
/// sequence of elements handed over so far, oldest first; `handle`
/// appends exactly its argument.
pub trait ElementHandler {
    /// The elements this handler has been given so far.  The default
    /// tracks nothing; a handler whose effect verified callers reason
    /// about overrides it.
    open spec fn log(&self) -> Seq<SpecElement> {
        Seq::empty()
    }

    /// Called on each element.
    fn handle(&mut self, element: &Element<'_>)
        ensures
            final(self).log() == old(self).log().push(spec_element_of(*element)),
    ;
}

/// The three operations of a map/reduce pass: a pure map over elements,
/// an identity value, and a combining operation, each pinned to its
/// spec-level counterpart.  `identity` may be invoked any number of
/// times; the result is independent of blob grouping only when `reduce`
/// is associative with `identity` neutral
/// (see `lemma_map_reduce_equivalence`).
pub trait MapReduce<T> {
    /// What the map operation computes.
    open spec fn spec_map(&self, e: SpecElement) -> T {
        vstd::pervasive::arbitrary()
    }

    /// The neutral starting value, at the spec level.
    open spec fn spec_identity(&self) -> T {
        vstd::pervasive::arbitrary()
    }

    /// What the combining operation computes.
    open spec fn spec_reduce(&self, a: T, b: T) -> T {
        vstd::pervasive::arbitrary()
    }

    /// Map one element to a summary value.
    fn map(&self, element: &Element<'_>) -> (r: T)
        ensures
            r == self.spec_map(spec_element_of(*element)),
    ;

    /// The neutral starting value.
    fn identity(&self) -> (r: T)
        ensures
            r == self.spec_identity(),
    ;

    /// Combine two summary values.
    fn reduce(&self, a: T, b: T) -> (r: T)
        ensures
            r == self.spec_reduce(a, b),
    ;
}

/// The map operation of a `MapReduce` as a spec-level function value.
pub open spec fn mr_map<T, M: MapReduce<T>>(ops: M) -> spec_fn(SpecElement) -> T {
    |e: SpecElement| ops.spec_map(e)
}

/// The reduce operation of a `MapReduce` as a spec-level function value.
pub open spec fn mr_reduce<T, M: MapReduce<T>>(ops: M) -> spec_fn(T, T) -> T {
    |a: T, b: T| ops.spec_reduce(a, b)
}

/// How the elements of a list of groups grow with one more group.
pub proof fn lemma_groups_elements_take_succ(
    b: osmformat::SpecPrimitiveBlock,
    gs: Seq<SpecPrimitiveGroup>,
    k: int,
)
    requires
        0 <= k < gs.len(),
    ensures
        spec_groups_elements(b, gs.take(k + 1)) == spec_groups_elements(b, gs.take(k))
            + spec_group_elements(b, gs[k]),
{
    assert(gs.take(k + 1).drop_last() =~= gs.take(k));
    assert(gs.take(k + 1).last() == gs[k]);
}

impl PrimitiveBlock {
    /// Call the handler on every element of the block, group by group:
    /// dense nodes first, then sparse nodes, ways, relations.
    #[verifier::rlimit(100)]
    #[verifier::spinoff_prover]
    pub fn for_each_element<H: ElementHandler>(&self, handler: &mut H)
        ensures
            final(handler).log() == old(handler).log() + spec_block_elements(self@),
    {
        let ghost log0 = handler.log();
        let ghost bb = self@;
        let groups = self.groups();
        let n = groups.len();
        let mut i: usize = 0;
        proof {
            assert(bb.primitivegroup.take(0) =~= Seq::<SpecPrimitiveGroup>::empty());
            assert(handler.log() =~= log0 + spec_groups_elements(bb, bb.primitivegroup.take(0)));
        }
        while i < n
            invariant
                i <= n,
                n == groups@.len(),
                n == bb.primitivegroup.len(),
                bb == self@,
                forall|k: int| 0 <= k < n ==> #[trigger] groups@[k]@ == (bb, bb.primitivegroup[k]),
                handler.log() == log0 + spec_groups_elements(bb, bb.primitivegroup.take(i as int)),
            decreases n - i,
        {
            let g = &groups[i];
            let ghost gv = bb.primitivegroup[i as int];
            let ghost pre = handler.log();
            let mut dense = g.dense_nodes();
            let ghost dn = dense.spec_view().1;
            proof {
                assert(spec_dense_elements(bb, dn).take(0) =~= Seq::<SpecElement>::empty());
                assert(handler.log() =~= pre + spec_dense_elements(bb, dn).take(0));
            }
            loop
                invariant
                    dense.wf(),
                    dense.spec_view().0 == bb,
                    dense.spec_view().1 == dn,
                    0 <= dense.spec_view().2 <= dense_len(dn),
                    handler.log() == pre + spec_dense_elements(bb, dn).take(dense.spec_view().2),
                ensures
                    handler.log() == pre + spec_dense_elements(bb, dn),
                decreases dense_len(dn) - dense.spec_view().2 + 1,
            {
                let ghost pos = dense.spec_view().2;
                match dense.next() {
                    Some(node) => {
                        let e = Element::DenseNode(node);
                        proof {
                            assert(spec_element_of(e) == spec_dense_element_at(bb, dn, pos));
                        }
                        handler.handle(&e);
                        proof {
                            assert(spec_dense_elements(bb, dn).take(pos + 1) =~= spec_dense_elements(
                                bb,
                                dn,
                            ).take(pos).push(spec_dense_element_at(bb, dn, pos)));
                        }
                    }
                    None => {
                        proof {
                            assert(spec_dense_elements(bb, dn).take(pos) =~= spec_dense_elements(
                                bb,
                                dn,
                            ));
                        }
                        break;
                    }
                }
            }
            let ghost pre_n = handler.log();
            let ghost nodes_es = Seq::new(
                gv.nodes.len(),
                |k: int| SpecElement::Node(bb, gv.nodes[k]),
            );
            let nodes = g.nodes();
            let mut j: usize = 0;
            let nn = nodes.len();
            proof {
                assert(handler.log() =~= pre_n + nodes_es.take(0));
            }
            while j < nn
                invariant
                    nn == nodes@.len(),
                    nn == gv.nodes.len(),
                    forall|k: int| 0 <= k < nn ==> #[trigger] nodes@[k]@ == (bb, gv.nodes[k]),
                    j <= nn,
                    handler.log() == pre_n + nodes_es.take(j as int),
                    nodes_es == Seq::new(
                        gv.nodes.len(),
                        |k: int| SpecElement::Node(bb, gv.nodes[k]),
                    ),
                decreases nn - j,
            {
                let e = Element::Node(nodes[j]);
                handler.handle(&e);
                proof {
                    assert(nodes_es.take(j + 1) =~= nodes_es.take(j as int).push(
                        nodes_es[j as int],
                    ));
                }
                j += 1;
            }
            let ghost pre_w = handler.log();
            let ghost ways_es = Seq::new(gv.ways.len(), |k: int| SpecElement::Way(bb, gv.ways[k]));
            let ways = g.ways();
            let mut j2: usize = 0;
            let nw = ways.len();
            proof {
                assert(handler.log() =~= pre_w + ways_es.take(0));
            }
            while j2 < nw
                invariant
                    nw == ways@.len(),
                    nw == gv.ways.len(),
                    forall|k: int| 0 <= k < nw ==> #[trigger] ways@[k]@ == (bb, gv.ways[k]),
                    j2 <= nw,
                    handler.log() == pre_w + ways_es.take(j2 as int),
                    ways_es == Seq::new(gv.ways.len(), |k: int| SpecElement::Way(bb, gv.ways[k])),
                decreases nw - j2,
            {
                let e = Element::Way(ways[j2]);
                handler.handle(&e);
                proof {
                    assert(ways_es.take(j2 + 1) =~= ways_es.take(j2 as int).push(
                        ways_es[j2 as int],
                    ));
                }
                j2 += 1;
            }
            let ghost pre_r = handler.log();
            let ghost rels_es = Seq::new(
                gv.relations.len(),
                |k: int| SpecElement::Relation(bb, gv.relations[k]),
            );
            let rels = g.relations();
            let mut j3: usize = 0;
            let nr = rels.len();
            proof {
                assert(handler.log() =~= pre_r + rels_es.take(0));
            }
            while j3 < nr
                invariant
                    nr == rels@.len(),
                    nr == gv.relations.len(),
                    forall|k: int| 0 <= k < nr ==> #[trigger] rels@[k]@ == (bb, gv.relations[k]),
                    j3 <= nr,
                    handler.log() == pre_r + rels_es.take(j3 as int),
                    rels_es == Seq::new(
                        gv.relations.len(),
                        |k: int| SpecElement::Relation(bb, gv.relations[k]),
                    ),
                decreases nr - j3,
            {
                let e = Element::Relation(rels[j3]);
                handler.handle(&e);
                proof {
                    assert(rels_es.take(j3 + 1) =~= rels_es.take(j3 as int).push(
                        rels_es[j3 as int],
                    ));
                }
                j3 += 1;
            }
            proof {
                assert(nodes_es.take(nn as int) =~= nodes_es);
                assert(ways_es.take(nw as int) =~= ways_es);
                assert(rels_es.take(nr as int) =~= rels_es);
                assert(handler.log() =~= pre + spec_group_elements(bb, gv));
                lemma_groups_elements_take_succ(bb, bb.primitivegroup, i as int);
                assert(handler.log() =~= log0 + spec_groups_elements(
                    bb,
                    bb.primitivegroup.take(i + 1),
                ));
            }
            i += 1;
        }
        proof {
            assert(bb.primitivegroup.take(n as int) =~= bb.primitivegroup);
        }
    }

    /// Fold the block's elements: map each and combine left-to-right
    /// starting from the identity, in the `for_each_element` order.
    #[verifier::rlimit(100)]
    #[verifier::spinoff_prover]
    pub fn map_reduce_elements<T, M: MapReduce<T>>(&self, ops: &M) -> (r: T)
        ensures
            r == spec_fold(
                spec_block_elements(self@),
                mr_map(*ops),
                ops.spec_identity(),
                mr_reduce(*ops),
            ),
    {
        let ghost bb = self@;
        let ghost m = mr_map(*ops);
        let ghost id = ops.spec_identity();
        let ghost rd = mr_reduce(*ops);
        let ghost mut done: Seq<SpecElement> = Seq::empty();
        let mut acc = ops.identity();
        let groups = self.groups();
        let n = groups.len();
        let mut i: usize = 0;
        proof {
            assert(bb.primitivegroup.take(0) =~= Seq::<SpecPrimitiveGroup>::empty());
            assert(done =~= spec_groups_elements(bb, bb.primitivegroup.take(0)));
        }
        while i < n
            invariant
                i <= n,
                n == groups@.len(),
                n == bb.primitivegroup.len(),
                bb == self@,
                m == mr_map(*ops),
                id == ops.spec_identity(),
                rd == mr_reduce(*ops),
                forall|k: int| 0 <= k < n ==> #[trigger] groups@[k]@ == (bb, bb.primitivegroup[k]),
                done == spec_groups_elements(bb, bb.primitivegroup.take(i as int)),
                acc == spec_fold(done, m, id, rd),
            decreases n - i,
        {
            let g = &groups[i];
            let ghost gv = bb.primitivegroup[i as int];
            let ghost pre = done;
            let mut dense = g.dense_nodes();
            let ghost dn = dense.spec_view().1;
            proof {
                assert(spec_dense_elements(bb, dn).take(0) =~= Seq::<SpecElement>::empty());
                assert(done =~= pre + spec_dense_elements(bb, dn).take(0));
            }
            loop
                invariant
                    dense.wf(),
                    dense.spec_view().0 == bb,
                    dense.spec_view().1 == dn,
                    0 <= dense.spec_view().2 <= dense_len(dn),
                    m == mr_map(*ops),
                    id == ops.spec_identity(),
                    rd == mr_reduce(*ops),
                    done == pre + spec_dense_elements(bb, dn).take(dense.spec_view().2),
                    acc == spec_fold(done, m, id, rd),
                ensures
                    done == pre + spec_dense_elements(bb, dn),
                    acc == spec_fold(done, m, id, rd),
                decreases dense_len(dn) - dense.spec_view().2 + 1,
            {
                let ghost pos = dense.spec_view().2;
                match dense.next() {
                    Some(node) => {
                        let e = Element::DenseNode(node);
                        proof {
                            assert(spec_element_of(e) == spec_dense_element_at(bb, dn, pos));
                        }
                        let v = ops.map(&e);
                        acc = ops.reduce(acc, v);
                        proof {
                            let done1 = done.push(spec_element_of(e));
                            assert(done1.drop_last() =~= done);
                            done = done1;
                            assert(spec_dense_elements(bb, dn).take(pos + 1) =~= spec_dense_elements(
                                bb,
                                dn,
                            ).take(pos).push(spec_dense_element_at(bb, dn, pos)));
                            assert(done =~= pre + spec_dense_elements(bb, dn).take(pos + 1));
                        }
                    }
                    None => {
                        proof {
                            assert(spec_dense_elements(bb, dn).take(pos) =~= spec_dense_elements(
                                bb,
                                dn,
                            ));
                        }
                        break;
                    }
                }
            }
            let ghost nodes_es = Seq::new(
                gv.nodes.len(),
                |k: int| SpecElement::Node(bb, gv.nodes[k]),
            );
            let ghost pre_n = done;
            let nodes = g.nodes();
            let mut j: usize = 0;
            let nn = nodes.len();
            proof {
                assert(done =~= pre_n + nodes_es.take(0));
            }
            while j < nn
                invariant
                    nn == nodes@.len(),
                    nn == gv.nodes.len(),
                    forall|k: int| 0 <= k < nn ==> #[trigger] nodes@[k]@ == (bb, gv.nodes[k]),
                    j <= nn,
                    m == mr_map(*ops),
                    id == ops.spec_identity(),
                    rd == mr_reduce(*ops),
                    done == pre_n + nodes_es.take(j as int),
                    acc == spec_fold(done, m, id, rd),
                    nodes_es == Seq::new(
                        gv.nodes.len(),
                        |k: int| SpecElement::Node(bb, gv.nodes[k]),
                    ),
                decreases nn - j,
            {
                let e = Element::Node(nodes[j]);
                let v = ops.map(&e);
                acc = ops.reduce(acc, v);
                proof {
                    let done1 = done.push(spec_element_of(e));
                    assert(done1.drop_last() =~= done);
                    done = done1;
                    assert(nodes_es.take(j + 1) =~= nodes_es.take(j as int).push(
                        nodes_es[j as int],
                    ));
                    assert(done =~= pre_n + nodes_es.take(j + 1));
                }
                j += 1;
            }
            let ghost ways_es = Seq::new(gv.ways.len(), |k: int| SpecElement::Way(bb, gv.ways[k]));
            let ghost pre_w = done;
            let ways = g.ways();
            let mut j2: usize = 0;
            let nw = ways.len();
            proof {
                assert(done =~= pre_w + ways_es.take(0));
            }
            while j2 < nw
                invariant
                    nw == ways@.len(),
                    nw == gv.ways.len(),
                    forall|k: int| 0 <= k < nw ==> #[trigger] ways@[k]@ == (bb, gv.ways[k]),
                    j2 <= nw,
                    m == mr_map(*ops),
                    id == ops.spec_identity(),
                    rd == mr_reduce(*ops),
                    done == pre_w + ways_es.take(j2 as int),
                    acc == spec_fold(done, m, id, rd),
                    ways_es == Seq::new(gv.ways.len(), |k: int| SpecElement::Way(bb, gv.ways[k])),
                decreases nw - j2,
            {
                let e = Element::Way(ways[j2]);
                let v = ops.map(&e);
                acc = ops.reduce(acc, v);
                proof {
                    let done1 = done.push(spec_element_of(e));
                    assert(done1.drop_last() =~= done);
                    done = done1;
                    assert(ways_es.take(j2 + 1) =~= ways_es.take(j2 as int).push(
                        ways_es[j2 as int],
                    ));
                    assert(done =~= pre_w + ways_es.take(j2 + 1));
                }
                j2 += 1;
            }
            let ghost rels_es = Seq::new(
                gv.relations.len(),
                |k: int| SpecElement::Relation(bb, gv.relations[k]),
            );
            let ghost pre_r = done;
            let rels = g.relations();
            let mut j3: usize = 0;
            let nr = rels.len();
            proof {
                assert(done =~= pre_r + rels_es.take(0));
            }
            while j3 < nr
                invariant
                    nr == rels@.len(),
                    nr == gv.relations.len(),
                    forall|k: int| 0 <= k < nr ==> #[trigger] rels@[k]@ == (bb, gv.relations[k]),
                    j3 <= nr,
                    m == mr_map(*ops),
                    id == ops.spec_identity(),
                    rd == mr_reduce(*ops),
                    done == pre_r + rels_es.take(j3 as int),
                    acc == spec_fold(done, m, id, rd),
                    rels_es == Seq::new(
                        gv.relations.len(),
                        |k: int| SpecElement::Relation(bb, gv.relations[k]),
                    ),
                decreases nr - j3,
            {
                let e = Element::Relation(rels[j3]);
                let v = ops.map(&e);
                acc = ops.reduce(acc, v);
                proof {
                    let done1 = done.push(spec_element_of(e));
                    assert(done1.drop_last() =~= done);
                    done = done1;
                    assert(rels_es.take(j3 + 1) =~= rels_es.take(j3 as int).push(
                        rels_es[j3 as int],
                    ));
                    assert(done =~= pre_r + rels_es.take(j3 + 1));
                }
                j3 += 1;
            }
            proof {
                assert(nodes_es.take(nn as int) =~= nodes_es);
                assert(ways_es.take(nw as int) =~= ways_es);
                assert(rels_es.take(nr as int) =~= rels_es);
                assert(done =~= pre + spec_group_elements(bb, gv));
                lemma_groups_elements_take_succ(bb, bb.primitivegroup, i as int);
                assert(done =~= spec_groups_elements(bb, bb.primitivegroup.take(i + 1)));
            }
            i += 1;
        }
        proof {
            assert(bb.primitivegroup.take(n as int) =~= bb.primitivegroup);
        }
        acc
    }
}

/// Whether one record decodes: a header blob must carry a header block,
/// a data blob a primitive block, and an unknown blob passes silently.
pub open spec fn spec_blob_ok(h: SpecBlobHeader, b: SpecBlob) -> bool {
    if h.type_ == "OSMHeader"@ {
        spec_payload_ok(b) matches Some(d) && osmformat::spec_parse_headerblock(
            d,
            0,
            d.len() as int,
        ) is Some
    } else if h.type_ == "OSMData"@ {
        spec_payload_ok(b) matches Some(d) && osmformat::spec_parse_primitiveblock(
            d,
            0,
            d.len() as int,
        ) is Some
    } else {
        true
    }
}

/// Whether the stream reads cleanly from `i` to its end: every record
/// frames and decodes, until a clean end of input.
#[verifier::opaque]
pub open spec fn spec_stream_clean(d: Seq<u8>, i: int) -> bool
    decreases d.len() - i,
{
    if i < 0 || i > d.len() {
        false
    } else {
        match spec_read_blob(d, i) {
            SpecBlobRead::Eof => true,
            SpecBlobRead::Fail(_) => false,
            SpecBlobRead::Read { header, blob, next } => if next <= i || next > d.len() {
                false
            } else {
                spec_blob_ok(header, blob) && spec_stream_clean(d, next)
            },
        }
    }
}

/// How cleanliness at one record relates to the next.
pub proof fn lemma_stream_clean_step(d: Seq<u8>, i: int)
    requires
        0 <= i <= d.len(),
    ensures
        match spec_read_blob(d, i) {
            SpecBlobRead::Eof => spec_stream_clean(d, i),
            SpecBlobRead::Fail(_) => !spec_stream_clean(d, i),
            SpecBlobRead::Read { header, blob, next } => spec_stream_clean(d, i) == (spec_blob_ok(
                header,
                blob,
            ) && spec_stream_clean(d, next)),
        },
{
    reveal(spec_stream_clean);
    crate::blob::lemma_read_advances(d, i);
}

/// The per-record element sequences of the stream from `i` on: one entry
/// per data blob that decodes, holding that block's elements in order;
/// header and unknown blobs contribute nothing.
#[verifier::opaque]
pub open spec fn spec_stream_elem_seqs(d: Seq<u8>, i: int) -> Seq<Seq<SpecElement>>
    decreases d.len() - i,
{
    if i < 0 || i > d.len() {
        Seq::empty()
    } else {
        match spec_read_blob(d, i) {
            SpecBlobRead::Eof => Seq::empty(),
            SpecBlobRead::Fail(_) => Seq::empty(),
            SpecBlobRead::Read { header, blob, next } => if next <= i || next > d.len() {
                Seq::empty()
            } else {
                if header.type_ == "OSMData"@ {
                    match spec_payload_ok(blob) {
                        Some(dd) => match osmformat::spec_parse_primitiveblock(
                            dd,
                            0,
                            dd.len() as int,
                        ) {
                            Some(bb) => seq![spec_block_elements(bb)] + spec_stream_elem_seqs(
                                d,
                                next,
                            ),
                            None => spec_stream_elem_seqs(d, next),
                        },
                        None => spec_stream_elem_seqs(d, next),
                    }
                } else {
                    spec_stream_elem_seqs(d, next)
                }
            },
        }
    }
}

/// All elements of the stream, in `for_each` order.
pub open spec fn spec_stream_elements(d: Seq<u8>, i: int) -> Seq<SpecElement> {
    spec_concat_all(spec_stream_elem_seqs(d, i))
}

/// How the element sequences at one record relate to the next.
pub proof fn lemma_stream_elems_step(d: Seq<u8>, i: int)
    requires
        0 <= i <= d.len(),
    ensures
        match spec_read_blob(d, i) {
            SpecBlobRead::Eof => spec_stream_elem_seqs(d, i) == Seq::<Seq<SpecElement>>::empty(),
            SpecBlobRead::Fail(_) => spec_stream_elem_seqs(d, i) == Seq::<
                Seq<SpecElement>,
            >::empty(),
            SpecBlobRead::Read { header, blob, next } => spec_stream_elem_seqs(d, i) == (
            if header.type_ == "OSMData"@ {
                match spec_payload_ok(blob) {
                    Some(dd) => match osmformat::spec_parse_primitiveblock(
                        dd,
                        0,
                        dd.len() as int,
                    ) {
                        Some(bb) => seq![spec_block_elements(bb)] + spec_stream_elem_seqs(d, next),
                        None => spec_stream_elem_seqs(d, next),
                    },
                    None => spec_stream_elem_seqs(d, next),
                }
            } else {
                spec_stream_elem_seqs(d, next)
            }),
        },
{
    reveal(spec_stream_elem_seqs);
    crate::blob::lemma_read_advances(d, i);
}

/// A reader that walks a PBF byte stream and hands out its elements.
pub struct ElementReader {
    blob_iter: BlobReader,
}

impl View for ElementReader {
    type V = SpecBlobReader;

    closed spec fn view(&self) -> SpecBlobReader {
        self.blob_iter@
    }
}

impl ElementReader {
    /// A reader over the given bytes.
    pub fn new(data: Vec<u8>) -> (r: ElementReader)
        ensures
            r@ == (SpecBlobReader { data: data@, offset: 0, ok: true, seekable: false }),
    {
        ElementReader { blob_iter: BlobReader::new(data) }
    }

    /// Decode the stream sequentially and call the handler on each
    /// element.  Header and unknown blobs pass silently; the first blob
    /// error ends the walk and is returned: the walk succeeds exactly
    /// when the whole stream reads cleanly, and then the handler has
    /// been given exactly the stream's elements, in on-disk order.
    #[verifier::rlimit(100)]
    #[verifier::spinoff_prover]
    pub fn for_each<H: ElementHandler>(self, handler: &mut H) -> (r: Result<(), Error>)
        ensures
            !self@.ok ==> r is Ok && final(handler).log() == old(handler).log(),
            self@.ok && self@.offset <= self@.data.len() ==> (r is Ok <==> spec_stream_clean(
                self@.data,
                self@.offset,
            )),
            self@.ok && self@.offset <= self@.data.len() && r is Ok ==> final(handler).log()
                == old(handler).log() + spec_stream_elements(self@.data, self@.offset),
    {
        let ghost s0 = self@;
        let ghost log0 = handler.log();
        let ghost mut consumed: Seq<Seq<SpecElement>> = Seq::empty();
        let mut blob_iter = self.blob_iter;
        proof {
            crate::blob::lemma_blob_reader_offset_nonneg(blob_iter);
        }
        let mut res: Result<(), Error> = Ok(());
        loop
            invariant_except_break
                blob_iter@.data == s0.data,
                blob_iter@.ok == s0.ok,
                !s0.ok ==> blob_iter@ == s0 && consumed == Seq::<Seq<SpecElement>>::empty(),
                res is Ok,
                s0.ok && s0.offset <= s0.data.len() ==> {
                    &&& 0 <= blob_iter@.offset <= blob_iter@.data.len()
                    &&& blob_iter@.ok
                    &&& spec_stream_clean(s0.data, s0.offset) == spec_stream_clean(
                        blob_iter@.data,
                        blob_iter@.offset,
                    )
                    &&& spec_stream_elem_seqs(s0.data, s0.offset) == consumed
                        + spec_stream_elem_seqs(s0.data, blob_iter@.offset)
                },
            invariant
                s0 == self@,
                handler.log() == log0 + spec_concat_all(consumed),
            ensures
                !s0.ok ==> res is Ok && handler.log() == log0,
                s0.ok && s0.offset <= s0.data.len() ==> {
                    &&& (res is Ok <==> spec_stream_clean(s0.data, s0.offset))
                    &&& (res is Ok ==> handler.log() == log0 + spec_stream_elements(
                        s0.data,
                        s0.offset,
                    ))
                },
            decreases vstd::math::max(0, blob_iter@.data.len() - blob_iter@.offset),
        {
            match step_record(&mut blob_iter) {
                StepOutcome::End => {
                    proof {
                        if !s0.ok {
                            assert(spec_concat_all(consumed) =~= Seq::<SpecElement>::empty());
                            assert(log0 + spec_concat_all(consumed) =~= log0);
                        }
                        if s0.ok && s0.offset <= s0.data.len() {
                            assert(consumed + Seq::<Seq<SpecElement>>::empty() =~= consumed);
                            assert(spec_stream_elem_seqs(s0.data, s0.offset) == consumed);
                        }
                    }
                    break;
                }
                StepOutcome::Failed(e) => {
                    res = Err(e);
                    break;
                }
                StepOutcome::DataBlock(block) => {
                    block.for_each_element(handler);
                    proof {
                        let x = spec_block_elements(block@);
                        let consumed1 = consumed.push(x);
                        assert(consumed1.drop_last() =~= consumed);
                        assert(spec_concat_all(consumed1) == spec_concat_all(consumed) + x);
                        if s0.ok && s0.offset <= s0.data.len() {
                            assert(consumed + (seq![x] + spec_stream_elem_seqs(
                                s0.data,
                                blob_iter@.offset,
                            )) =~= consumed1 + spec_stream_elem_seqs(s0.data, blob_iter@.offset));
                        }
                        consumed = consumed1;
                    }
                }
                StepOutcome::Skipped => (),
            }
        }
        res
    }

    /// Map/reduce over all elements: each data blob's elements are
    /// folded independently from the identity, and the per-blob partial
    /// results are then combined in order; the result is pinned to
    /// `spec_combine_partials` over the stream's per-blob element
    /// sequences.  With an associative `reduce` and a neutral `identity`
    /// this equals the sequential fold over the `for_each` order
    /// (`lemma_map_reduce_equivalence`); blob partials may be computed
    /// concurrently by a driver on top of `map_reduce_elements`.  It
    /// succeeds exactly when the whole stream reads cleanly.
    #[verifier::rlimit(100)]
    #[verifier::spinoff_prover]
    pub fn par_map_reduce<T, M: MapReduce<T>>(self, ops: &M) -> (r: Result<T, Error>)
        ensures
            !self@.ok ==> (r matches Ok(v) && v == ops.spec_identity()),
            self@.ok && self@.offset <= self@.data.len() ==> (r is Ok <==> spec_stream_clean(
                self@.data,
                self@.offset,
            )),
            self@.ok && self@.offset <= self@.data.len() ==> (r matches Ok(v) ==> v
                == spec_combine_partials(
                spec_stream_elem_seqs(self@.data, self@.offset),
                mr_map(*ops),
                ops.spec_identity(),
                mr_reduce(*ops),
            )),
    {
        let ghost s0 = self@;
        let ghost m = mr_map(*ops);
        let ghost id = ops.spec_identity();
        let ghost rd = mr_reduce(*ops);
        let ghost mut consumed: Seq<Seq<SpecElement>> = Seq::empty();
        let mut blob_iter = self.blob_iter;
        proof {
            crate::blob::lemma_blob_reader_offset_nonneg(blob_iter);
        }
        let mut acc = ops.identity();
        loop
            invariant
                s0 == self@,
                blob_iter@.data == s0.data,
                blob_iter@.ok == s0.ok,
                m == mr_map(*ops),
                id == ops.spec_identity(),
                rd == mr_reduce(*ops),
                !s0.ok ==> blob_iter@ == s0 && consumed == Seq::<Seq<SpecElement>>::empty(),
                acc == spec_combine_partials(consumed, m, id, rd),
                s0.ok && s0.offset <= s0.data.len() ==> {
                    &&& 0 <= blob_iter@.offset <= blob_iter@.data.len()
                    &&& blob_iter@.ok
                    &&& spec_stream_clean(s0.data, s0.offset) == spec_stream_clean(
                        blob_iter@.data,
                        blob_iter@.offset,
                    )
                    &&& spec_stream_elem_seqs(s0.data, s0.offset) == consumed
                        + spec_stream_elem_seqs(s0.data, blob_iter@.offset)
                },
            decreases vstd::math::max(0, blob_iter@.data.len() - blob_iter@.offset),
        {
            match step_record(&mut blob_iter) {
                StepOutcome::End => {
                    proof {
                        if s0.ok && s0.offset <= s0.data.len() {
                            assert(consumed + Seq::<Seq<SpecElement>>::empty() =~= consumed);
                        }
                    }
                    return Ok(acc);
                }
                StepOutcome::Failed(e) => {
                    return Err(e);
                }
                StepOutcome::DataBlock(block) => {
                    let partial = block.map_reduce_elements(ops);
                    acc = ops.reduce(acc, partial);
                    proof {
                        let x = spec_block_elements(block@);
                        let consumed1 = consumed.push(x);
                        assert(consumed1.drop_last() =~= consumed);
                        if s0.ok && s0.offset <= s0.data.len() {
                            assert(consumed + (seq![x] + spec_stream_elem_seqs(
                                s0.data,
                                blob_iter@.offset,
                            )) =~= consumed1 + spec_stream_elem_seqs(s0.data, blob_iter@.offset));
                        }
                        consumed = consumed1;
                    }
                }
                StepOutcome::Skipped => (),
            }
        }
    }
}

/// What one record-reading step produced.
enum StepOutcome {
    /// A clean end of input (or a reader already terminal).
    End,
    /// The record failed to frame or decode.
    Failed(Error),
    /// A data blob's decoded block.
    DataBlock(PrimitiveBlock),
    /// A header or unknown blob, passed silently.
    Skipped,
}

/// Read and decode one record, classifying the outcome against
/// `spec_stream_clean` and `spec_stream_elem_seqs`.
#[verifier::rlimit(100)]
#[verifier::spinoff_prover]
fn step_record(blob_iter: &mut BlobReader) -> (r: StepOutcome)
    ensures
        final(blob_iter)@.data == old(blob_iter)@.data,
        !old(blob_iter)@.ok ==> r is End && final(blob_iter)@ == old(blob_iter)@,
        r is End ==> final(blob_iter)@ == old(blob_iter)@,
        old(blob_iter)@.ok ==> match r {
            StepOutcome::DataBlock(_) | StepOutcome::Skipped => {
                &&& final(blob_iter)@.ok
                &&& old(blob_iter)@.offset < final(blob_iter)@.offset <= old(
                    blob_iter,
                )@.data.len()
            },
            _ => true,
        },
        ({
            let d = old(blob_iter)@.data;
            let i = old(blob_iter)@.offset;
            (old(blob_iter)@.ok && 0 <= i <= d.len()) ==> match r {
                StepOutcome::End => spec_stream_clean(d, i) && spec_stream_elem_seqs(d, i)
                    == Seq::<Seq<SpecElement>>::empty(),
                StepOutcome::Failed(_) => !spec_stream_clean(d, i),
                StepOutcome::DataBlock(block) => {
                    &&& final(blob_iter)@.ok
                    &&& i < final(blob_iter)@.offset <= d.len()
                    &&& spec_stream_clean(d, i) == spec_stream_clean(d, final(blob_iter)@.offset)
                    &&& spec_stream_elem_seqs(d, i) == seq![spec_block_elements(block@)]
                        + spec_stream_elem_seqs(d, final(blob_iter)@.offset)
                },
                StepOutcome::Skipped => {
                    &&& final(blob_iter)@.ok
                    &&& i < final(blob_iter)@.offset <= d.len()
                    &&& spec_stream_clean(d, i) == spec_stream_clean(d, final(blob_iter)@.offset)
                    &&& spec_stream_elem_seqs(d, i) == spec_stream_elem_seqs(
                        d,
                        final(blob_iter)@.offset,
                    )
                },
            }
        }),
{
    let ghost d = blob_iter@.data;
    let ghost i = blob_iter@.offset;
    let next = blob_iter.next();
    proof {
        crate::blob::lemma_read_advances(d, i);
        if blob_iter@.ok || next is Some {
        }
        if 0 <= i <= d.len() {
            lemma_stream_clean_step(d, i);
            lemma_stream_elems_step(d, i);
        }
        reveal_strlit("OSMHeader");
        reveal_strlit("OSMData");
        assert(("OSMHeader"@).len() == 9);
        assert(("OSMData"@).len() == 7);
    }
    match next {
        None => StepOutcome::End,
        Some(Err(e)) => StepOutcome::Failed(e),
        Some(Ok(blob)) => match blob.decode() {
            Ok(BlobDecode::OsmData(block)) => StepOutcome::DataBlock(block),
            Ok(_) => StepOutcome::Skipped,
            Err(e) => StepOutcome::Failed(e),
        },
    }
}

/// Folding a flat element sequence left-to-right from `acc`.
pub open spec fn spec_fold<A, T>(es: Seq<A>, m: spec_fn(A) -> T, acc: T, r: spec_fn(T, T) -> T)
    -> T
    decreases es.len(),
{
    if es.len() == 0 {
        acc
    } else {
        r(spec_fold(es.drop_last(), m, acc, r), m(es.last()))
    }
}

/// The concatenation of per-blob element sequences.
pub open spec fn spec_concat_all<A>(bs: Seq<Seq<A>>) -> Seq<A>
    decreases bs.len(),
{
    if bs.len() == 0 {
        Seq::empty()
    } else {
        spec_concat_all(bs.drop_last()) + bs.last()
    }
}

/// Per-blob folds from the identity, combined left-to-right.
pub open spec fn spec_combine_partials<A, T>(
    bs: Seq<Seq<A>>,
    m: spec_fn(A) -> T,
    id: T,
    r: spec_fn(T, T) -> T,
) -> T
    decreases bs.len(),
{
    if bs.len() == 0 {
        id
    } else {
        r(spec_combine_partials(bs.drop_last(), m, id, r), spec_fold(bs.last(), m, id, r))
    }
}

/// Folding a concatenation continues the fold of the first part.
proof fn lemma_fold_concat<A, T>(
    xs: Seq<A>,
    ys: Seq<A>,
    m: spec_fn(A) -> T,
    acc: T,
    r: spec_fn(T, T) -> T,
)
    ensures
        spec_fold(xs + ys, m, acc, r) == spec_fold(ys, m, spec_fold(xs, m, acc, r), r),
    decreases ys.len(),
{
    if ys.len() == 0 {
        assert(xs + ys =~= xs);
    } else {
        assert((xs + ys).drop_last() =~= xs + ys.drop_last());
        assert((xs + ys).last() == ys.last());
        lemma_fold_concat(xs, ys.drop_last(), m, acc, r);
    }
}

/// With an associative combine, a fold from `r(a, b)` is `r(a, -)` of
/// the fold from `b`.
proof fn lemma_fold_shift<A, T>(
    es: Seq<A>,
    m: spec_fn(A) -> T,
    a: T,
    b: T,
    r: spec_fn(T, T) -> T,
)
    requires
        forall|x: T, y: T, z: T| #[trigger] r(r(x, y), z) == r(x, r(y, z)),
    ensures
        spec_fold(es, m, r(a, b), r) == r(a, spec_fold(es, m, b, r)),
    decreases es.len(),
{
    if es.len() > 0 {
        lemma_fold_shift(es.drop_last(), m, a, b, r);
    }
}

/// Parallel equivalence: for an associative `reduce` with a neutral
/// `identity`, combining per-blob folds equals one sequential fold over
/// all elements in order.  Together with the contracts of
/// `par_map_reduce` and `for_each` this pins the parallel result to the
/// sequential one: `par_map_reduce` returns
/// `spec_combine_partials(spec_stream_elem_seqs(d, 0), ...)`, which this
/// law equates with the fold over `spec_stream_elements(d, 0)`, the
/// sequence `for_each` hands over.
pub proof fn lemma_map_reduce_equivalence<A, T>(
    bs: Seq<Seq<A>>,
    m: spec_fn(A) -> T,
    id: T,
    r: spec_fn(T, T) -> T,
)
    requires
        forall|x: T, y: T, z: T| #[trigger] r(r(x, y), z) == r(x, r(y, z)),
        forall|x: T| #[trigger] r(id, x) == x,
        forall|x: T| #[trigger] r(x, id) == x,
    ensures
        spec_combine_partials(bs, m, id, r) == spec_fold(spec_concat_all(bs), m, id, r),
    decreases bs.len(),
{
    if bs.len() > 0 {
        let head = bs.drop_last();
        let lastb = bs.last();
        lemma_map_reduce_equivalence(head, m, id, r);
        lemma_fold_concat(spec_concat_all(head), lastb, m, id, r);
        let fh = spec_fold(spec_concat_all(head), m, id, r);
        let fl = spec_fold(lastb, m, id, r);
        assert(spec_fold(lastb, m, r(fh, id), r) == r(fh, spec_fold(lastb, m, id, r))) by {
            lemma_fold_shift(lastb, m, fh, id, r);
        };
        assert(spec_fold(lastb, m, fh, r) == spec_fold(lastb, m, r(fh, id), r));
    }
}

} // verus!
