//! Blob typing, framing errors and the size caps.

use osmpbf::blob::{Blob, BlobDecode, BlobReader, BlobType, ByteOffset, MAX_BLOB_HEADER_SIZE};
use osmpbf::error::{BlobError, ErrorKind};
use osmpbf::fileformat;
use osmpbf::writer::{BlobEncoding, BlobWriter};
use osmpbf::block::HeaderBlock;
use osmpbf::osmformat;
use std::io::Write;

fn empty_blob_msg() -> fileformat::Blob {
    fileformat::Blob { raw: None, raw_size: None, zlib_data: None }
}

#[test]
fn test_get_type() {
    let pairs = [
        ("", BlobType::Unknown("")),
        ("abc", BlobType::Unknown("abc")),
        ("OSMHeader", BlobType::OsmHeader),
        ("OSMData", BlobType::OsmData),
    ];

    for (string, blob_type) in &pairs {
        let ff_header = fileformat::BlobHeader {
            type_: string.to_string(),
            indexdata: None,
            datasize: 0,
        };
        let ff_blob = empty_blob_msg();
        let blob = Blob::new(ff_header, ff_blob, None);
        assert_eq!(blob.get_type(), *blob_type);
    }
}

#[test]
fn empty_blob_is_an_error() {
    let header = fileformat::BlobHeader {
        type_: "OSMData".to_string(),
        indexdata: None,
        datasize: 0,
    };
    let blob = Blob::new(header, empty_blob_msg(), None);
    match blob.to_primitiveblock() {
        Err(e) => assert!(matches!(e.kind(), ErrorKind::Blob(BlobError::Empty))),
        Ok(_) => panic!("an empty blob must not decode"),
    }
}

#[test]
fn truncated_header_size_is_an_error() {
    // Two stray bytes: not even a length prefix.
    let mut reader = BlobReader::new(vec![0u8, 1u8]);
    match reader.next() {
        Some(Err(e)) => {
            assert!(matches!(e.kind(), ErrorKind::Blob(BlobError::InvalidHeaderSize)));
        }
        _ => panic!("expected an invalid-header-size error"),
    }
    // The reader is terminal afterwards.
    assert!(reader.next().is_none());
}

#[test]
fn oversized_header_is_an_error() {
    // A declared header size of exactly 64 KiB must be rejected, and the
    // reader must not read further records.
    let mut data = vec![0u8, 1u8, 0u8, 0u8]; // 65536 big-endian
    data.extend_from_slice(&[0u8; 70000]);
    let mut reader = BlobReader::new(data);
    match reader.next() {
        Some(Err(e)) => match e.kind() {
            ErrorKind::Blob(BlobError::HeaderTooBig { size }) => {
                assert_eq!(*size, MAX_BLOB_HEADER_SIZE);
            }
            k => panic!("unexpected error kind: {:?}", k),
        },
        _ => panic!("expected a header-too-big error"),
    }
    assert!(reader.next().is_none());
}

#[test]
fn oversized_decompressed_payload_is_an_error() {
    // A zlib payload that inflates to 32 MiB must be rejected.
    let big = vec![0u8; 32 * 1024 * 1024];
    let mut enc = flate2::write::ZlibEncoder::new(Vec::new(), flate2::Compression::new(6));
    enc.write_all(&big).unwrap();
    let z = enc.finish().unwrap();
    let header = fileformat::BlobHeader {
        type_: "OSMData".to_string(),
        indexdata: None,
        datasize: 0,
    };
    let blob_msg = fileformat::Blob {
        raw: None,
        raw_size: Some(big.len() as i32),
        zlib_data: Some(z),
    };
    let blob = Blob::new(header, blob_msg, None);
    match blob.to_primitiveblock() {
        Err(e) => {
            assert!(matches!(e.kind(), ErrorKind::Blob(BlobError::MessageTooBig { .. })));
        }
        Ok(_) => panic!("an oversized payload must not decode"),
    }
}

#[test]
fn blob_offsets_are_reproducible() {
    // Offset fidelity: seeking back to a returned blob's offset yields
    // the same blob.
    let mut w = BlobWriter::new(Vec::new());
    w.write_header_block(
        HeaderBlock::new(osmformat::HeaderBlock::new_msg()),
        BlobEncoding::Raw,
    )
    .unwrap();
    let mut block = osmformat::PrimitiveBlock::new_msg();
    block.stringtable = Some(osmformat::StringTable::new_msg());
    w.write_primitive_block(osmpbf::block::PrimitiveBlock::new(block), BlobEncoding::Raw)
        .unwrap();
    let data = w.into_inner();

    let mut reader = BlobReader::new_seekable(data).unwrap();
    let first = reader.next().unwrap().unwrap();
    let second = reader.next().unwrap().unwrap();
    assert_eq!(first.offset(), Some(ByteOffset(0)));
    let o1 = first.offset().unwrap();
    let o2 = second.offset().unwrap();

    let again = reader.blob_from_offset(o1).unwrap();
    assert_eq!(again.offset(), Some(o1));
    assert!(matches!(again.get_type(), BlobType::OsmHeader));

    let again2 = reader.blob_from_offset(o2).unwrap();
    assert_eq!(again2.offset(), Some(o2));
    assert!(matches!(again2.get_type(), BlobType::OsmData));

    // Reading past the end reports an unexpected end of input.
    reader.seek(ByteOffset(u64::MAX)).unwrap();
    assert!(reader.next().is_none());
}

#[test]
fn round_trip_framing_preserves_records() {
    // Round-trip framing: blobs written in order come back in order,
    // with the same type tags and payload sizes.
    let mut w = BlobWriter::new(Vec::new());
    let payloads: [&[u8]; 3] = [b"alpha", b"beta-beta", b""];
    for p in payloads.iter() {
        let header = fileformat::BlobHeader {
            type_: "UnknownKind".to_string(),
            indexdata: None,
            datasize: 0,
        };
        let blob_msg = fileformat::Blob {
            raw: Some(p.to_vec()),
            raw_size: Some(p.len() as i32),
            zlib_data: None,
        };
        w.write_blob(Blob::new(header, blob_msg, None)).unwrap();
    }
    let data = w.into_inner();
    let mut reader = BlobReader::new_seekable(data).unwrap();
    let mut seen: usize = 0;
    while let Some(b) = reader.next() {
        let b = b.unwrap();
        match b.get_type() {
            BlobType::Unknown(t) => assert_eq!(t, "UnknownKind"),
            _ => panic!("wrong type tag"),
        }
        seen += 1;
    }
    assert_eq!(seen, 3);
}

#[test]
fn literal_wire_fixture() {
    // A two-record file written out byte for byte, independently of the
    // crate's writer: an empty OSMHeader blob, then an OSMData blob
    // holding one sparse node with id 105, both stored raw.
    let mut data: Vec<u8> = Vec::new();
    // OSMHeader record: 4-byte header size, BlobHeader, Blob.
    data.extend_from_slice(&[0, 0, 0, 13]);
    data.extend_from_slice(&[0x0A, 0x09]);
    data.extend_from_slice(b"OSMHeader");
    data.extend_from_slice(&[0x18, 0x04]);
    data.extend_from_slice(&[0x0A, 0x00, 0x10, 0x00]);
    // OSMData record.
    data.extend_from_slice(&[0, 0, 0, 11]);
    data.extend_from_slice(&[0x0A, 0x07]);
    data.extend_from_slice(b"OSMData");
    data.extend_from_slice(&[0x18, 0x0F]);
    data.extend_from_slice(&[
        0x0A, 0x0B, // raw payload, 11 bytes
        0x0A, 0x02, 0x0A, 0x00, // stringtable holding the blank entry
        0x12, 0x05, 0x0A, 0x03, 0x08, 0xD2, 0x01, // one group, one node, id 105 zigzagged
        0x10, 0x0B, // raw_size
    ]);

    let mut reader = BlobReader::new(data);
    let first = reader.next().unwrap().unwrap();
    match first.decode().unwrap() {
        BlobDecode::OsmHeader(h) => {
            assert_eq!(h.required_features().len(), 0);
            assert_eq!(h.optional_features().len(), 0);
        }
        _ => panic!("expected a header blob"),
    }
    let second = reader.next().unwrap().unwrap();
    match second.decode().unwrap() {
        BlobDecode::OsmData(block) => {
            let groups = block.groups();
            assert_eq!(groups.len(), 1);
            let nodes = groups[0].nodes();
            assert_eq!(nodes.len(), 1);
            assert_eq!(nodes[0].id(), 105);
            assert_eq!(nodes[0].nano_lat(), 0);
            assert_eq!(nodes[0].nano_lon(), 0);
            assert_eq!(nodes[0].tags().collect_tags().len(), 0);
        }
        _ => panic!("expected a data blob"),
    }
    assert!(reader.next().is_none());
}
