//! End-to-end reading scenarios over writer-built files.

use osmpbf::blob::{BlobDecode, BlobReader, BlobType};
use osmpbf::indexed::IndexedReader;
use osmpbf::mmap_blob::MmapBlobReader;
use osmpbf::osmformat;
use osmpbf::reader::{ElementHandler, ElementReader, MapReduce};
use osmpbf::writer::{BlobEncoding, BlobWriter};
use osmpbf::block::{HeaderBlock, PrimitiveBlock};
use osmpbf::elements::Element;
use osmpbf::indexed::WayFilter;

const REQ_SCHEMA_V6: &str = "OsmSchema-V0.6";
const REQ_DENSE_NODES: &str = "DenseNodes";
const REQ_HIST_INFO: &str = "HistoricalInformation";
const OPT_LOC_ON_WAYS: &str = "LocationsOnWays";

// Raw coordinate units (granularity 100) of the three fixture nodes.
const RAW: [(i64, i64, i64); 3] = [
    (105, 521224031, 116284017),
    (106, 521199235, 116256446),
    (108, 521198991, 116310192),
];

fn header_block(req: &[&str], opt: &[&str]) -> HeaderBlock {
    let mut msg = osmformat::HeaderBlock::new_msg();
    for f in req {
        msg.required_features.push(f.to_string());
    }
    for f in opt {
        msg.optional_features.push(f.to_string());
    }
    HeaderBlock::new(msg)
}

fn stringtable() -> osmformat::StringTable {
    let words: [&str; 8] = [
        "", "building", "yes", "name", "triangle", "rel_key", "rel_value", "test_role",
    ];
    let mut st = osmformat::StringTable::new_msg();
    for w in words.iter() {
        st.s.push(w.as_bytes().to_vec());
    }
    st
}

fn info_uid17() -> osmformat::Info {
    let mut i = osmformat::Info::new_msg();
    i.uid = Some(17);
    i
}

fn the_way() -> osmformat::Way {
    let mut way = osmformat::Way::new_msg();
    way.id = Some(107);
    way.keys.push(1);
    way.vals.push(2);
    way.keys.push(3);
    way.vals.push(4);
    way.refs = vec![105, 1, 2, -3];
    way
}

fn the_relation() -> osmformat::Relation {
    let mut rel = osmformat::Relation::new_msg();
    rel.id = Some(200);
    rel.keys.push(5);
    rel.vals.push(6);
    rel.roles_sid.push(7);
    rel.memids.push(107);
    rel.types.push(1);
    rel
}

/// One data block holding the three nodes (dense or sparse), the way
/// and the relation of the fixture.
fn primitive_block(dense: bool) -> PrimitiveBlock {
    let mut block = osmformat::PrimitiveBlock::new_msg();
    block.stringtable = Some(stringtable());
    let mut group = osmformat::PrimitiveGroup::new_msg();
    if dense {
        let mut dn = osmformat::DenseNodes::new_msg();
        dn.id = vec![105, 1, 2];
        dn.lat = vec![RAW[0].1, RAW[1].1 - RAW[0].1, RAW[2].1 - RAW[1].1];
        dn.lon = vec![RAW[0].2, RAW[1].2 - RAW[0].2, RAW[2].2 - RAW[1].2];
        let mut di = osmformat::DenseInfo::new_msg();
        di.version = vec![1, 1, 1];
        di.timestamp = vec![0, 0, 0];
        di.changeset = vec![0, 0, 0];
        di.uid = vec![17, 0, 0];
        di.user_sid = vec![0, 0, 0];
        dn.denseinfo = Some(di);
        group.dense = Some(dn);
    } else {
        for (id, lat, lon) in RAW.iter() {
            let mut n = osmformat::Node::new_msg();
            n.id = Some(*id);
            n.lat = Some(*lat);
            n.lon = Some(*lon);
            n.info = Some(info_uid17());
            group.nodes.push(n);
        }
    }
    group.ways.push(the_way());
    group.relations.push(the_relation());
    block.primitivegroup.push(group);
    PrimitiveBlock::new(block)
}

/// The fixture as one file: a header blob and a data blob.
fn test_file(dense: bool, encoding: BlobEncoding) -> Vec<u8> {
    let mut w = BlobWriter::new(Vec::new());
    w.write_header_block(header_block(&[REQ_SCHEMA_V6, REQ_DENSE_NODES], &[]), encoding)
        .unwrap();
    w.write_primitive_block(primitive_block(dense), encoding).unwrap();
    w.into_inner()
}

fn test_files() -> Vec<Vec<u8>> {
    vec![
        test_file(true, BlobEncoding::Zlib { level: 6 }),
        test_file(true, BlobEncoding::Raw),
        test_file(false, BlobEncoding::Raw),
    ]
}

fn approx_eq(a: f64, b: f64) -> bool {
    (a - b).abs() < 1.0e-6
}

fn is_same_unordered(a: &[&str], b: &[String]) -> bool {
    let mut a: Vec<String> = a.iter().map(|s| s.to_string()).collect();
    let mut b = b.to_vec();
    a.sort_unstable();
    b.sort_unstable();
    a == b
}

fn check_header_block_content(block: &HeaderBlock, req: &[&str], opt: &[&str]) {
    assert!(is_same_unordered(req, block.required_features()));
    assert!(is_same_unordered(opt, block.optional_features()));
}

fn check_primitive_block_content(block: &PrimitiveBlock) {
    let mut nodes = Vec::new();
    let mut dense_ids = Vec::new();
    let mut dense_coords = Vec::new();
    let mut dense_infos = Vec::new();
    let mut ways = Vec::new();
    let mut relations = Vec::new();
    for g in block.groups() {
        for n in g.nodes() {
            nodes.push(n);
        }
        let mut it = g.dense_nodes();
        while let Some(n) = it.next() {
            dense_ids.push(n.id);
            dense_coords.push((n.nano_lat(), n.decimicro_lat(), n.nano_lon(), n.decimicro_lon()));
            dense_infos.push(n.info());
        }
        for w in g.ways() {
            ways.push(w);
        }
        for r in g.relations() {
            relations.push(r);
        }
    }

    if !nodes.is_empty() {
        assert_eq!(nodes.len(), 3);
        assert!(approx_eq(1e-9 * nodes[1].nano_lat() as f64, 52.11992359584));
        assert_eq!(nodes[1].nano_lat(), 52119923500);
        assert_eq!(nodes[1].decimicro_lat(), 521199235);
        assert!(approx_eq(1e-9 * nodes[1].nano_lon() as f64, 11.62564468943));
        assert_eq!(nodes[1].nano_lon(), 11625644600);
        assert_eq!(nodes[1].decimicro_lon(), 116256446);
        assert_eq!(nodes[2].nano_lat(), 52119899100);
        assert_eq!(nodes[2].decimicro_lat(), 521198991);
        assert_eq!(nodes[2].nano_lon(), 11631019200);
        assert_eq!(nodes[2].decimicro_lon(), 116310192);
        assert_eq!(nodes[0].id(), 105);
        assert_eq!(nodes[1].id(), 106);
        assert_eq!(nodes[2].id(), 108);
        for n in nodes.iter() {
            assert_eq!(n.info().uid(), Some(17));
            assert!(n.info().visible());
        }
    }

    if !dense_ids.is_empty() {
        assert_eq!(dense_ids.len(), 3);
        assert_eq!(dense_ids, vec![105, 106, 108]);
        assert_eq!(dense_coords[1].0, 52119923500);
        assert_eq!(dense_coords[1].1, 521199235);
        assert_eq!(dense_coords[1].2, 11625644600);
        assert_eq!(dense_coords[1].3, 116256446);
        assert_eq!(dense_coords[2].0, 52119899100);
        assert_eq!(dense_coords[2].1, 521198991);
        assert_eq!(dense_coords[2].2, 11631019200);
        assert_eq!(dense_coords[2].3, 116310192);
        for i in dense_infos.iter() {
            let info = i.unwrap();
            assert_eq!(info.uid(), 17);
            assert!(info.visible());
        }
    }

    {
        assert_eq!(ways.len(), 1);
        assert_eq!(ways[0].id(), 107);
        let mut tag_iter = ways[0].tags();
        let way_tags = tag_iter.collect_tags();
        assert_eq!(way_tags.len(), 2);
        assert!(way_tags.contains(&("building", "yes")));
        assert!(way_tags.contains(&("name", "triangle")));
        let mut refs = ways[0].refs();
        let way_refs = refs.collect_refs();
        assert_eq!(way_refs, vec![105, 106, 108, 105]);
        let mut locs = ways[0].node_locations();
        let mut loc_count: usize = 0;
        while let Some(_) = locs.next() {
            loc_count += 1;
        }
        assert_eq!(loc_count, 0);
    }

    {
        assert_eq!(relations.len(), 1);
        let mut tag_iter = relations[0].tags();
        let tags = tag_iter.collect_tags();
        assert_eq!(tags.len(), 1);
        assert!(tags.contains(&("rel_key", "rel_value")));
        let mut member_iter = relations[0].members();
        let mut members = Vec::new();
        while let Some(m) = member_iter.next() {
            members.push(m.unwrap());
        }
        assert_eq!(members.len(), 1);
        assert_eq!(members[0].role().unwrap(), "test_role");
    }
}

fn collect_blobs(data: Vec<u8>) -> Vec<osmpbf::blob::Blob> {
    let mut reader = BlobReader::new_seekable(data).unwrap();
    let mut blobs = Vec::new();
    while let Some(b) = reader.next() {
        blobs.push(b.unwrap());
    }
    blobs
}

#[test]
fn read_blobs() {
    for data in test_files() {
        let blobs = collect_blobs(data);
        assert_eq!(blobs.len(), 2);
        assert_eq!(blobs[0].get_type(), BlobType::OsmHeader);
        assert_eq!(blobs[1].get_type(), BlobType::OsmData);
        let header = blobs[0].to_headerblock().unwrap();
        check_header_block_content(&header, &[REQ_SCHEMA_V6, REQ_DENSE_NODES], &[]);
        let primitive_block = blobs[1].to_primitiveblock().unwrap();
        check_primitive_block_content(&primitive_block);
    }
}

#[test]
fn read_mmap_blobs() {
    for data in test_files() {
        let mut reader = MmapBlobReader::new(data.as_slice());
        let mut blobs = Vec::new();
        while let Some(b) = reader.next() {
            blobs.push(b.unwrap());
        }
        assert_eq!(blobs.len(), 2);
        assert_eq!(blobs[0].get_type(), BlobType::OsmHeader);
        assert_eq!(blobs[1].get_type(), BlobType::OsmData);
        if let BlobDecode::OsmHeader(header) = blobs[0].decode().unwrap() {
            check_header_block_content(&header, &[REQ_SCHEMA_V6, REQ_DENSE_NODES], &[]);
        } else {
            panic!("Unexpected blob type");
        }
        if let BlobDecode::OsmData(primitive_block) = blobs[1].decode().unwrap() {
            check_primitive_block_content(&primitive_block);
        } else {
            panic!("Unexpected blob type");
        }
    }
}

#[test]
fn decode_blob() {
    for data in test_files() {
        let blobs = collect_blobs(data);
        assert_eq!(blobs.len(), 2);
        assert_eq!(blobs[0].get_type(), BlobType::OsmHeader);
        assert_eq!(blobs[1].get_type(), BlobType::OsmData);
        // Decoding to the wrong block type should produce an Err, not a
        // panic: the required fields keep the two block types apart.
        assert!(blobs[0].to_primitiveblock().is_err());
        assert!(blobs[1].to_headerblock().is_err());
        assert!(blobs[0].to_headerblock().is_ok());
        assert!(blobs[1].to_primitiveblock().is_ok());
    }
}

struct CountingHandler {
    elements: usize,
}

impl ElementHandler for CountingHandler {
    fn handle(&mut self, _element: &Element<'_>) {
        self.elements += 1;
    }
}

#[test]
fn read_elements() {
    for data in test_files() {
        let reader = ElementReader::new(data);
        let mut counter = CountingHandler { elements: 0 };
        reader.for_each(&mut counter).unwrap();
        assert_eq!(counter.elements, 5);
    }
}

struct CountingOps;

impl MapReduce<usize> for CountingOps {
    fn map(&self, _element: &Element<'_>) -> usize {
        1
    }

    fn identity(&self) -> usize {
        0
    }

    fn reduce(&self, a: usize, b: usize) -> usize {
        a + b
    }
}

#[test]
fn par_read_elements() {
    for data in test_files() {
        let reader = ElementReader::new(data);
        let elements = reader.par_map_reduce(&CountingOps).unwrap();
        assert_eq!(elements, 5);
    }
}

struct BuildingFilter;

impl WayFilter for BuildingFilter {
    fn keep(&mut self, way: &osmpbf::elements::Way<'_>) -> bool {
        let mut tags = way.tags();
        while let Some(kv) = tags.next() {
            if kv == ("building", "yes") {
                return true;
            }
        }
        false
    }
}

struct WayNodeCounter {
    ways: usize,
    nodes: usize,
}

impl ElementHandler for WayNodeCounter {
    fn handle(&mut self, element: &Element<'_>) {
        match element {
            Element::Way(_) => self.ways += 1,
            Element::Node(_) => self.nodes += 1,
            Element::DenseNode(_) => self.nodes += 1,
            Element::Relation(_) => panic!(), // should not occur
        }
    }
}

#[test]
fn read_ways_and_deps() {
    for data in test_files() {
        let mut reader = IndexedReader::new(data).unwrap();
        let mut filter = BuildingFilter;
        let mut counter = WayNodeCounter { ways: 0, nodes: 0 };
        reader.read_ways_and_deps(&mut filter, &mut counter).unwrap();
        assert_eq!(counter.ways, 1);
        assert_eq!(counter.nodes, 3);
    }
}

#[test]
fn read_history_file() {
    // A file whose required features include historical information: one
    // deleted (invisible) dense node and one visible one.
    let mut w = BlobWriter::new(Vec::new());
    w.write_header_block(
        header_block(&[REQ_SCHEMA_V6, REQ_DENSE_NODES, REQ_HIST_INFO], &[]),
        BlobEncoding::Zlib { level: 6 },
    )
    .unwrap();
    let mut block = osmformat::PrimitiveBlock::new_msg();
    block.stringtable = Some(stringtable());
    let mut group = osmformat::PrimitiveGroup::new_msg();
    let mut dn = osmformat::DenseNodes::new_msg();
    dn.id = vec![1, 1];
    dn.lat = vec![100, 1];
    dn.lon = vec![200, 1];
    let mut di = osmformat::DenseInfo::new_msg();
    di.version = vec![1, 2];
    di.timestamp = vec![0, 0];
    di.changeset = vec![0, 0];
    di.uid = vec![17, 0];
    di.user_sid = vec![0, 0];
    di.visible = vec![false, true];
    dn.denseinfo = Some(di);
    group.dense = Some(dn);
    block.primitivegroup.push(group);
    w.write_primitive_block(PrimitiveBlock::new(block), BlobEncoding::Zlib { level: 6 })
        .unwrap();

    let blobs = collect_blobs(w.into_inner());
    assert_eq!(blobs.len(), 2);
    assert_eq!(blobs[0].get_type(), BlobType::OsmHeader);
    assert_eq!(blobs[1].get_type(), BlobType::OsmData);
    let header = blobs[0].to_headerblock().unwrap();
    check_header_block_content(&header, &[REQ_SCHEMA_V6, REQ_DENSE_NODES, REQ_HIST_INFO], &[]);
    let primitive_block = blobs[1].to_primitiveblock().unwrap();
    let mut infos = Vec::new();
    for g in primitive_block.groups() {
        let mut it = g.dense_nodes();
        while let Some(n) = it.next() {
            infos.push(n.info().unwrap());
        }
    }
    assert_eq!(infos.len(), 2);
    assert!(!infos[0].visible());
    assert!(infos[1].visible());
}

#[test]
fn read_loc_on_ways_file() {
    // A file with the locations-on-ways optional feature: the way
    // carries its node coordinates, and nodes sit in separate blobs.
    let mut w = BlobWriter::new(Vec::new());
    w.write_header_block(
        header_block(&[REQ_SCHEMA_V6, REQ_DENSE_NODES], &[OPT_LOC_ON_WAYS]),
        BlobEncoding::Zlib { level: 6 },
    )
    .unwrap();

    let mut block = osmformat::PrimitiveBlock::new_msg();
    block.stringtable = Some(stringtable());
    let mut group = osmformat::PrimitiveGroup::new_msg();
    let mut way = the_way();
    // Delta-coded raw coordinates of nodes 105, 106, 108, 105.
    way.lat = vec![
        RAW[0].1,
        RAW[1].1 - RAW[0].1,
        RAW[2].1 - RAW[1].1,
        RAW[0].1 - RAW[2].1,
    ];
    way.lon = vec![
        RAW[0].2,
        RAW[1].2 - RAW[0].2,
        RAW[2].2 - RAW[1].2,
        RAW[0].2 - RAW[2].2,
    ];
    group.ways.push(way);
    block.primitivegroup.push(group);
    w.write_primitive_block(PrimitiveBlock::new(block), BlobEncoding::Zlib { level: 6 })
        .unwrap();

    let mut block2 = osmformat::PrimitiveBlock::new_msg();
    block2.stringtable = Some(stringtable());
    let mut group2 = osmformat::PrimitiveGroup::new_msg();
    group2.relations.push(the_relation());
    block2.primitivegroup.push(group2);
    w.write_primitive_block(PrimitiveBlock::new(block2), BlobEncoding::Zlib { level: 6 })
        .unwrap();

    let blobs = collect_blobs(w.into_inner());
    assert_eq!(blobs.len(), 3);
    assert_eq!(blobs[0].get_type(), BlobType::OsmHeader);
    assert_eq!(blobs[1].get_type(), BlobType::OsmData);
    assert_eq!(blobs[2].get_type(), BlobType::OsmData);

    let header = blobs[0].to_headerblock().unwrap();
    check_header_block_content(&header, &[REQ_SCHEMA_V6, REQ_DENSE_NODES], &[OPT_LOC_ON_WAYS]);

    {
        let primitive_block = blobs[1].to_primitiveblock().unwrap();
        let mut ways = Vec::new();
        for g in primitive_block.groups() {
            let mut dn = g.dense_nodes();
            assert!(dn.next().is_none());
            assert_eq!(g.relations().len(), 0);
            for w in g.ways() {
                ways.push(w);
            }
        }
        assert_eq!(ways.len(), 1);
        let way = &ways[0];
        assert_eq!(way.id(), 107);
        let mut tag_iter = way.tags();
        let tags = tag_iter.collect_tags();
        assert_eq!(tags.len(), 2);
        assert!(tags.contains(&("building", "yes")));
        assert!(tags.contains(&("name", "triangle")));
        let mut ref_iter = way.refs();
        let refs = ref_iter.collect_refs();
        assert_eq!(refs, vec![105, 106, 108, 105]);
        let mut loc_iter = way.node_locations();
        let mut locs = Vec::new();
        while let Some(l) = loc_iter.next() {
            locs.push(l);
        }
        assert_eq!(locs.len(), 4);
        let expect = [
            (52122403100i64, 521224031i32, 11628401700i64, 116284017i32),
            (52119923500, 521199235, 11625644600, 116256446),
            (52119899100, 521198991, 11631019200, 116310192),
            (52122403100, 521224031, 11628401700, 116284017),
        ];
        for (l, e) in locs.iter().zip(expect.iter()) {
            assert_eq!(l.nano_lat(), e.0);
            assert_eq!(l.decimicro_lat(), e.1);
            assert_eq!(l.nano_lon(), e.2);
            assert_eq!(l.decimicro_lon(), e.3);
            assert!(approx_eq(1e-9 * l.nano_lat() as f64, e.0 as f64 * 1e-9));
        }
        assert_eq!(locs[0].nano_lat(), locs[3].nano_lat());
        assert_eq!(locs[0].nano_lon(), locs[3].nano_lon());
    }

    {
        let primitive_block = blobs[2].to_primitiveblock().unwrap();
        let mut relations = Vec::new();
        for g in primitive_block.groups() {
            let mut dn = g.dense_nodes();
            assert!(dn.next().is_none());
            assert_eq!(g.ways().len(), 0);
            for r in g.relations() {
                relations.push(r);
            }
        }
        assert_eq!(relations.len(), 1);
        let mut tag_iter = relations[0].tags();
        let tags = tag_iter.collect_tags();
        assert_eq!(tags.len(), 1);
        assert!(tags.contains(&("rel_key", "rel_value")));
        let mut member_iter = relations[0].members();
        let mut members = Vec::new();
        while let Some(m) = member_iter.next() {
            members.push(m.unwrap());
        }
        assert_eq!(members.len(), 1);
        assert_eq!(members[0].role().unwrap(), "test_role");
    }
}
