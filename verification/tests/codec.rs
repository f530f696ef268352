//! Wire primitives, delta decoding and stringtable failure modes.

use osmpbf::block::str_from_stringtable;
use osmpbf::error::ErrorKind;
use osmpbf::osmformat;
use osmpbf::wire::{
    read_be32, read_varint, write_be32, write_varint, zigzag32_decode, zigzag32_encode,
    zigzag_decode, zigzag_encode,
};

#[test]
fn varint_concrete_values() {
    let mut out = Vec::new();
    write_varint(&mut out, 0);
    write_varint(&mut out, 1);
    write_varint(&mut out, 127);
    write_varint(&mut out, 128);
    write_varint(&mut out, 300);
    write_varint(&mut out, u64::MAX);
    assert_eq!(&out[0..3], &[0, 1, 127]);
    assert_eq!(&out[3..5], &[0x80, 0x01]);
    assert_eq!(&out[5..7], &[0xAC, 0x02]);

    let (v, p) = read_varint(&out, 0).unwrap();
    assert_eq!((v, p), (0, 1));
    let (v, p) = read_varint(&out, p).unwrap();
    assert_eq!((v, p), (1, 2));
    let (v, p) = read_varint(&out, p).unwrap();
    assert_eq!((v, p), (127, 3));
    let (v, p) = read_varint(&out, p).unwrap();
    assert_eq!((v, p), (128, 5));
    let (v, p) = read_varint(&out, p).unwrap();
    assert_eq!((v, p), (300, 7));
    let (v, p) = read_varint(&out, p).unwrap();
    assert_eq!(v, u64::MAX);
    assert_eq!(p, out.len());
    // A truncated continuation byte does not decode.
    assert!(read_varint(&[0x80u8], 0).is_none());
}

#[test]
fn zigzag_concrete_values() {
    let cases64: [(i64, u64); 7] =
        [(0, 0), (-1, 1), (1, 2), (-2, 3), (2, 4), (i64::MAX, u64::MAX - 1), (i64::MIN, u64::MAX)];
    for (n, z) in cases64.iter() {
        assert_eq!(zigzag_encode(*n), *z);
        assert_eq!(zigzag_decode(*z), *n);
    }
    let cases32: [(i32, u32); 5] = [(0, 0), (-1, 1), (1, 2), (i32::MAX, u32::MAX - 1), (
        i32::MIN,
        u32::MAX,
    )];
    for (n, z) in cases32.iter() {
        assert_eq!(zigzag32_encode(*n), *z);
        assert_eq!(zigzag32_decode(*z), *n);
    }
}

#[test]
fn be32_concrete_values() {
    let mut out = Vec::new();
    write_be32(&mut out, 0x01020304);
    assert_eq!(out, vec![1, 2, 3, 4]);
    assert_eq!(read_be32(&out, 0), 0x01020304);
}

#[test]
fn delta_decoding_matches_prefix_sums() {
    // The i-th decoded value is d[0] + ... + d[i].
    let deltas: Vec<i64> = vec![5, -2, 7, 0, -10];
    let mut way = osmformat::Way::new_msg();
    way.refs = deltas.clone();
    let mut g = osmformat::PrimitiveGroup::new_msg();
    g.ways.push(way);
    let mut block = osmformat::PrimitiveBlock::new_msg();
    block.primitivegroup.push(g);
    let wrapped = osmpbf::block::PrimitiveBlock::new(block);
    let groups = wrapped.groups();
    let ways = groups[0].ways();
    let mut it = ways[0].refs();
    let decoded = it.collect_refs();
    let mut sums = Vec::new();
    let mut acc: i64 = 0;
    for d in deltas.iter() {
        acc += d;
        sums.push(acc);
    }
    assert_eq!(decoded, sums);
}

#[test]
fn dense_tags_skip_zero_terminators() {
    // Two dense nodes share one flat tag stream; each run ends at a 0.
    let mut dn = osmformat::DenseNodes::new_msg();
    dn.id = vec![1, 1];
    dn.lat = vec![0, 0];
    dn.lon = vec![0, 0];
    dn.keys_vals = vec![1, 2, 3, 4, 0, 5, 6]; // node 1: (1,2) (3,4); node 2: (5,6), no trailing 0
    let mut block = osmformat::PrimitiveBlock::new_msg();
    let mut g = osmformat::PrimitiveGroup::new_msg();
    g.dense = Some(dn);
    block.primitivegroup.push(g);
    let wrapped = osmpbf::block::PrimitiveBlock::new(block);
    let groups = wrapped.groups();
    let mut it = groups[0].dense_nodes();
    let n1 = it.next().unwrap();
    let n2 = it.next().unwrap();
    assert!(it.next().is_none());
    let mut t1 = n1.raw_tags();
    assert_eq!(t1.next(), Some((1, 2)));
    assert_eq!(t1.next(), Some((3, 4)));
    assert_eq!(t1.next(), None);
    let mut t2 = n2.raw_tags();
    assert_eq!(t2.next(), Some((5, 6)));
    assert_eq!(t2.next(), None);
}

#[test]
fn stringtable_errors_are_reported() {
    let mut block = osmformat::PrimitiveBlock::new_msg();
    let mut st = osmformat::StringTable::new_msg();
    st.s.push(Vec::new());
    st.s.push(vec![0xFFu8, 0xFE]); // not UTF-8
    block.stringtable = Some(st);
    match str_from_stringtable(&block, 1) {
        Err(e) => assert!(matches!(e.kind(), ErrorKind::StringtableUtf8 { index: 1 })),
        Ok(_) => panic!("invalid UTF-8 must not resolve"),
    }
    match str_from_stringtable(&block, 9) {
        Err(e) => {
            assert!(matches!(e.kind(), ErrorKind::StringtableIndexOutOfBounds { index: 9 }))
        }
        Ok(_) => panic!("an out-of-bounds index must not resolve"),
    }
    assert_eq!(str_from_stringtable(&block, 0).unwrap(), "");
}

#[test]
fn tag_pairs_with_unresolvable_indices_are_skipped() {
    let mut block = osmformat::PrimitiveBlock::new_msg();
    let mut st = osmformat::StringTable::new_msg();
    for w in ["", "k1", "v1", "k2", "v2"].iter() {
        st.s.push(w.as_bytes().to_vec());
    }
    block.stringtable = Some(st);
    let mut node = osmformat::Node::new_msg();
    node.keys = vec![1, 99, 3];
    node.vals = vec![2, 2, 4];
    let mut g = osmformat::PrimitiveGroup::new_msg();
    g.nodes.push(node);
    block.primitivegroup.push(g);
    let wrapped = osmpbf::block::PrimitiveBlock::new(block);
    let groups = wrapped.groups();
    let nodes = groups[0].nodes();
    let mut tag_iter = nodes[0].tags();
    let tags = tag_iter.collect_tags();
    // The middle pair references index 99 and is skipped, not fatal.
    assert_eq!(tags, vec![("k1", "v1"), ("k2", "v2")]);
}
