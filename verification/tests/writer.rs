//! The blob writer and the block/node builders.

use osmpbf::block::{HeaderBlock, PrimitiveBlock};
use osmpbf::osmformat;
use osmpbf::writer::{BlobEncoding, BlobWriter, BlockBuilder};

#[test]
fn test_blob_writer() {
    let buf = vec![];
    let mut w = BlobWriter::new(buf);

    {
        let block = HeaderBlock::new(osmformat::HeaderBlock::new_msg());
        w.write_header_block(block, BlobEncoding::Zlib { level: 6 }).unwrap();
    }

    {
        let mut block = osmformat::PrimitiveBlock::new_msg();
        block.stringtable = Some(osmformat::StringTable::new_msg());
        block.primitivegroup = Vec::new();
        let block = PrimitiveBlock::new(block);
        w.write_primitive_block(block, BlobEncoding::Zlib { level: 6 }).unwrap();
    }
}

#[test]
fn test_block_builder() {
    let buf = vec![];
    let w = BlobWriter::new(buf);
    let mut block_builder = BlockBuilder::new(w);
    assert_eq!(block_builder.add_string_table_entry("abc".into()), 1);
    assert_eq!(block_builder.add_string_table_entry("xyz".into()), 2);
    assert_eq!(block_builder.add_string_table_entry("abc".into()), 1);
    assert_eq!(block_builder.add_string_table_entry("123".into()), 3);
    block_builder.finish(BlobEncoding::Raw).unwrap();
}

#[test]
fn test_node_builder() {
    let buf = vec![];
    let w = BlobWriter::new(buf);
    let block_builder = BlockBuilder::new(w);
    let mut group = block_builder.node_group();
    group = group
        .node_builder()
        .id(12)
        .raw_latlon(524000000, 130500000)
        .add_tag("name", "Potsdam")
        .add_tag("place", "city")
        .finish();
    group = group
        .node_builder()
        .id(13)
        .raw_latlon(525100000, 133500000)
        .add_tag("name", "Berlin")
        .add_tag("place", "city")
        .add_tag("capital", "yes")
        .finish();
    let block_builder = group.finish();
    block_builder.finish(BlobEncoding::Raw).unwrap();
}

#[test]
fn built_blocks_read_back() {
    // A block built with the fluent builders decodes to the same nodes
    // and tags, with stringtable entries interned once.
    let w = BlobWriter::new(vec![]);
    let block_builder = BlockBuilder::new(w);
    let mut group = block_builder.node_group();
    group = group
        .node_builder()
        .id(41)
        .raw_latlon(1000, 2000)
        .add_tag("place", "city")
        .finish();
    group = group
        .node_builder()
        .id(42)
        .raw_latlon(1100, 2100)
        .add_tag("place", "town")
        .finish();
    let block_builder = group.finish();
    let w = block_builder.finish(BlobEncoding::Raw).unwrap();
    let data = w.into_inner();

    let mut reader = osmpbf::blob::BlobReader::new(data);
    let blob = reader.next().unwrap().unwrap();
    let block = blob.to_primitiveblock().unwrap();
    // "place" is interned once: three distinct words plus the reserved
    // blank entry.
    assert_eq!(block.raw_stringtable().len(), 4);
    assert_eq!(block.raw_stringtable()[0].len(), 0);
    let mut ids = Vec::new();
    let mut tags = Vec::new();
    for g in block.groups() {
        for n in g.nodes() {
            ids.push(n.id());
            let mut t = n.tags();
            for kv in t.collect_tags() {
                tags.push((kv.0.to_string(), kv.1.to_string()));
            }
        }
    }
    assert_eq!(ids, vec![41, 42]);
    assert_eq!(tags.len(), 2);
    assert_eq!(tags[0], ("place".to_string(), "city".to_string()));
    assert_eq!(tags[1], ("place".to_string(), "town".to_string()));
}
