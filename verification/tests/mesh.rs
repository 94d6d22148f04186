use support::error::ParseError;
use support::glenum;
use support::object::{
    chunk, chunk_header, chunk_kind, comment, container_header, data, index_data, parse_chunks,
    parse_object, prepare_object, render_all, render_object, sub_objects, vertex_attribute,
    vertex_attributes, vertex_data, Assembly, AttributeBinding, ChunkHeader, ChunkKind, ChunkType,
    ContainerHeader, Data, DrawCall, IndexData, Object, SubObject, VertexAttribute, VertexData,
    CHUNK_HEADER_BYTES, CONTAINER_HEADER_BYTES, VERTEX_ATTRIBUTE_BYTES,
    VERTEX_ATTRIBUTE_NAME_BYTES, VERTEX_ATTRIB_FLAG_NORMALIZED,
};

const FLOAT: u32 = 0x1406;

fn put(bytes: &mut Vec<u8>, value: u32) {
    bytes.extend_from_slice(&value.to_le_bytes());
}

fn chunk_bytes(tag: &[u8; 4], payload: &[u8]) -> Vec<u8> {
    let mut bytes = tag.to_vec();
    put(&mut bytes, (payload.len() + 8) as u32);
    bytes.extend_from_slice(payload);
    bytes
}

fn three(tag: &[u8; 4], a: u32, b: u32, c: u32) -> Vec<u8> {
    let mut payload = Vec::new();
    put(&mut payload, a);
    put(&mut payload, b);
    put(&mut payload, c);
    chunk_bytes(tag, &payload)
}

fn vertex_chunk(data_offset: u32, total_vertices: u32, stream: &[u8]) -> Vec<u8> {
    let mut payload = Vec::new();
    put(&mut payload, stream.len() as u32);
    put(&mut payload, data_offset);
    put(&mut payload, total_vertices);
    payload.extend_from_slice(stream);
    chunk_bytes(b"VRTX", &payload)
}

fn record(name: &[u8], size: u32, kind: u32, stride: u32, flags: u32, offset: u32) -> Vec<u8> {
    let mut bytes = name.to_vec();
    bytes.resize(64, 0);
    put(&mut bytes, size);
    put(&mut bytes, kind);
    put(&mut bytes, stride);
    put(&mut bytes, flags);
    put(&mut bytes, offset);
    bytes
}

fn attribute_chunk(records: &[Vec<u8>]) -> Vec<u8> {
    let mut payload = Vec::new();
    put(&mut payload, records.len() as u32);
    for r in records {
        payload.extend_from_slice(r);
    }
    chunk_bytes(b"ATRB", &payload)
}

fn list_chunk(pairs: &[(u32, u32)]) -> Vec<u8> {
    let mut payload = Vec::new();
    put(&mut payload, pairs.len() as u32);
    for (first, count) in pairs {
        put(&mut payload, *first);
        put(&mut payload, *count);
    }
    chunk_bytes(b"OLST", &payload)
}

fn container_with(magic: &[u8; 4], padding: usize, chunks: &[Vec<u8>]) -> Vec<u8> {
    let mut bytes = magic.to_vec();
    put(&mut bytes, (16 + padding) as u32);
    put(&mut bytes, chunks.len() as u32);
    put(&mut bytes, 0);
    bytes.resize(16 + padding, 0xEE);
    for c in chunks {
        bytes.extend_from_slice(c);
    }
    bytes
}

fn container(chunks: &[Vec<u8>]) -> Vec<u8> {
    container_with(b"SB6M", 0, chunks)
}

fn stream(len: usize) -> Vec<u8> {
    (0..len).map(|i| (i * 7 % 256) as u8).collect()
}

fn position_and_normal() -> Vec<Vec<u8>> {
    vec![record(b"position", 3, FLOAT, 12, 0, 0), record(b"normal", 3, FLOAT, 12, 0, 12)]
}

#[test]
fn container_header_holds_the_three_fields() {
    let mut bytes = b"SB6M".to_vec();
    put(&mut bytes, 0x30);
    put(&mut bytes, 7);
    put(&mut bytes, 0xA0B0_C0D0);
    assert_eq!(
        container_header(&bytes),
        Ok(ContainerHeader {
            reversed: false,
            total_header_size: 0x30,
            chunk_count: 7,
            flags: 0xA0B0_C0D0
        })
    );
    bytes[..4].copy_from_slice(b"M6BS");
    assert_eq!(
        container_header(&bytes),
        Ok(ContainerHeader {
            reversed: true,
            total_header_size: 0x30,
            chunk_count: 7,
            flags: 0xA0B0_C0D0
        })
    );
    assert_eq!(container_header(&bytes[..15]), Err(ParseError::Truncated { needed: 4 }));
    assert_eq!(container_header(&bytes[..3]), Err(ParseError::Truncated { needed: 4 }));
    assert_eq!(container_header(b"KTX 11"), Err(ParseError::MagicMismatch));
}

#[test]
fn layout_constants() {
    assert_eq!(CONTAINER_HEADER_BYTES, 16);
    assert_eq!(CHUNK_HEADER_BYTES, 8);
    assert_eq!(VERTEX_ATTRIBUTE_NAME_BYTES, 64);
    assert_eq!(VERTEX_ATTRIBUTE_BYTES, 84);
    assert_eq!(VERTEX_ATTRIB_FLAG_NORMALIZED, 1);
}

#[test]
fn two_attributes_and_a_vertex_stream() {
    let vertices = stream(5 * 24);
    let bytes =
        container(&[attribute_chunk(&position_and_normal()), vertex_chunk(0, 5, &vertices)]);
    let assembly = parse_object(&bytes).unwrap();
    assert_eq!(assembly.vertices, Some(&vertices[..]));
    assert_eq!(assembly.buffer_size(), 120);
    assert_eq!(
        assembly.attributes,
        vec![
            AttributeBinding {
                index: 0,
                component_count: 3,
                component_type: FLOAT,
                normalized: false,
                stride: 12,
                offset: 0,
            },
            AttributeBinding {
                index: 1,
                component_count: 3,
                component_type: FLOAT,
                normalized: false,
                stride: 12,
                offset: 12,
            },
        ]
    );
    assert_eq!(assembly.sub_objects, vec![SubObject { first: 0, count: 5 }]);
    let object = assembly.into_object(7, 9);
    assert_eq!(object.vbo(), 7);
    assert_eq!(object.vao(), 9);
    assert_eq!(object.attributes().len(), 2);
    assert_eq!(object.attributes()[0].index, 0);
    assert_eq!(object.attributes()[1].index, 1);
    assert_eq!(object.attributes()[1].stride, 12);
    assert_eq!(object.attributes()[1].offset, 12);
    assert_eq!(object.sub_objects(), &vec![SubObject { first: 0, count: 5 }]);
}

#[test]
fn without_a_list_one_range_covers_all_vertices() {
    let bytes = container(&[
        vertex_chunk(0, 36, &stream(36)),
        attribute_chunk(&[record(b"position", 4, FLOAT, 0, 0, 0)]),
    ]);
    let assembly = parse_object(&bytes).unwrap();
    assert_eq!(assembly.sub_objects, vec![SubObject { first: 0, count: 36 }]);
}

#[test]
fn a_list_is_kept_in_order() {
    let pairs = [(0, 10), (10, 20), (5, 1), (30, 0)];
    let bytes = container(&[
        vertex_chunk(0, 36, &stream(36)),
        list_chunk(&pairs),
        attribute_chunk(&[record(b"position", 4, FLOAT, 0, 0, 0)]),
    ]);
    let assembly = parse_object(&bytes).unwrap();
    assert_eq!(
        assembly.sub_objects,
        vec![
            SubObject { first: 0, count: 10 },
            SubObject { first: 10, count: 20 },
            SubObject { first: 5, count: 1 },
            SubObject { first: 30, count: 0 },
        ]
    );
}

#[test]
fn an_empty_list_leaves_no_ranges() {
    let bytes = container(&[vertex_chunk(0, 36, &stream(36)), list_chunk(&[])]);
    assert_eq!(parse_object(&bytes).unwrap().sub_objects, vec![]);
}

#[test]
fn of_two_chunks_of_a_kind_the_last_counts() {
    let first = stream(8);
    let second = vec![1u8, 2, 3];
    let bytes = container(&[
        vertex_chunk(0, 2, &first),
        attribute_chunk(&[record(b"a", 1, FLOAT, 4, 0, 0)]),
        list_chunk(&[(0, 1)]),
        vertex_chunk(0, 9, &second),
        attribute_chunk(&[record(b"b", 2, FLOAT, 8, 1, 4), record(b"c", 3, FLOAT, 8, 0, 8)]),
        list_chunk(&[(1, 2), (3, 4)]),
    ]);
    let assembly = parse_object(&bytes).unwrap();
    assert_eq!(assembly.vertices, Some(&second[..]));
    assert_eq!(assembly.buffer_size(), 3);
    assert_eq!(assembly.attributes.len(), 2);
    assert_eq!(assembly.attributes[0].component_count, 2);
    assert!(assembly.attributes[0].normalized);
    assert_eq!(assembly.attributes[1].component_count, 3);
    assert_eq!(
        assembly.sub_objects,
        vec![SubObject { first: 1, count: 2 }, SubObject { first: 3, count: 4 }]
    );
}

#[test]
fn a_container_without_chunks_assembles_to_one_empty_range() {
    let bytes = container(&[]);
    let assembly = parse_object(&bytes).unwrap();
    assert_eq!(assembly.vertices, None);
    assert_eq!(assembly.buffer_size(), 0);
    assert_eq!(assembly.attributes, vec![]);
    assert_eq!(assembly.sub_objects, vec![SubObject { first: 0, count: 0 }]);
}

#[test]
fn reversed_identifier_is_accepted_and_fields_stay_little_endian() {
    let vertices = stream(4);
    let bytes = container_with(b"M6BS", 0, &[vertex_chunk(3, 4, &vertices)]);
    let (chunks, end) = parse_chunks(&bytes).unwrap();
    assert_eq!(end, bytes.len());
    assert_eq!(
        chunks,
        vec![ChunkType::VertexData(VertexData {
            data_offset: 3,
            total_vertices: 4,
            vertices: &vertices[..],
        })]
    );
}

#[test]
fn other_identifiers_are_a_magic_mismatch() {
    let good = container(&[vertex_chunk(0, 1, &stream(1))]);
    for magic in [b"SB6N", b"XB6M", b"M6BX", b"sb6m", b"SBM6"] {
        let mut bytes = good.clone();
        bytes[..4].copy_from_slice(magic);
        assert_eq!(parse_object(&bytes).err(), Some(ParseError::MagicMismatch));
        assert_eq!(parse_chunks(&bytes).err(), Some(ParseError::MagicMismatch));
    }
    let mut bytes = good.clone();
    bytes[0] = b'M';
    assert_eq!(parse_object(&bytes).err(), Some(ParseError::MagicMismatch));
}

#[test]
fn header_padding_is_skipped() {
    let vertices = stream(6);
    let bytes = container_with(b"SB6M", 11, &[vertex_chunk(0, 2, &vertices)]);
    let (chunks, end) = parse_chunks(&bytes).unwrap();
    assert_eq!(chunks.len(), 1);
    assert_eq!(end, bytes.len());
    let mut cut = bytes.clone();
    cut.truncate(20);
    assert_eq!(parse_chunks(&cut).err(), Some(ParseError::Truncated { needed: 11 }));
}

#[test]
fn a_header_size_below_sixteen_is_refused() {
    let vertices = stream(6);
    let mut bytes = container(&[vertex_chunk(0, 2, &vertices)]);
    for size in [0u32, 3, 15] {
        bytes[4..8].copy_from_slice(&size.to_le_bytes());
        assert_eq!(parse_chunks(&bytes).err(), Some(ParseError::Truncated { needed: 16 }));
        assert_eq!(parse_object(&bytes).err(), Some(ParseError::Truncated { needed: 16 }));
        assert_eq!(container_header(&bytes), Err(ParseError::Truncated { needed: 16 }));
    }
    bytes[4..8].copy_from_slice(&16u32.to_le_bytes());
    assert!(parse_object(&bytes).is_ok());
    bytes[4..8].copy_from_slice(&15u32.to_le_bytes());
    assert_eq!(container_header(&bytes[..16]), Err(ParseError::Truncated { needed: 16 }));
    assert_eq!(container_header(&bytes[..15]), Err(ParseError::Truncated { needed: 4 }));
}

#[test]
fn bytes_after_the_last_chunk_are_left_alone() {
    let mut bytes = container(&[three(b"DATA", 1, 2, 3)]);
    let end = bytes.len();
    bytes.extend_from_slice(b"trailing");
    let (chunks, stop) = parse_chunks(&bytes).unwrap();
    assert_eq!(stop, end);
    assert_eq!(chunks, vec![ChunkType::Data(Data { encoding: 1, data_offset: 2, data_length: 3 })]);
}

#[test]
fn the_chunk_count_rules_not_the_length() {
    let mut bytes = container(&[three(b"DATA", 1, 2, 3), three(b"INDX", 4, 5, 6)]);
    bytes[8..12].copy_from_slice(&1u32.to_le_bytes());
    let (chunks, stop) = parse_chunks(&bytes).unwrap();
    assert_eq!(chunks.len(), 1);
    assert_eq!(stop, 36);
    bytes[8..12].copy_from_slice(&3u32.to_le_bytes());
    assert_eq!(parse_chunks(&bytes).err(), Some(ParseError::Truncated { needed: 4 }));
}

#[test]
fn every_kind_of_chunk_is_decoded_in_order() {
    let vertices = stream(10);
    let bytes = container(&[
        three(b"INDX", 0x1405, 300, 64),
        chunk_bytes(b"CMNT", b"made by hand \0\0 \0"),
        three(b"DATA", 9, 8, 7),
        vertex_chunk(2, 5, &vertices),
        attribute_chunk(&[record(b"position", 3, FLOAT, 12, 1, 0)]),
        list_chunk(&[(0, 3), (3, 2)]),
    ]);
    let (chunks, end) = parse_chunks(&bytes).unwrap();
    assert_eq!(end, bytes.len());
    assert_eq!(
        chunks,
        vec![
            ChunkType::IndexData(IndexData {
                index_type: 0x1405,
                index_count: 300,
                index_data_offset: 64
            }),
            ChunkType::Comment("made by hand".to_string()),
            ChunkType::Data(Data { encoding: 9, data_offset: 8, data_length: 7 }),
            ChunkType::VertexData(VertexData {
                data_offset: 2,
                total_vertices: 5,
                vertices: &vertices[..]
            }),
            ChunkType::VertexAttributes(vec![VertexAttribute {
                name: "position".to_string(),
                size: 3,
                attribute_type: FLOAT,
                stride: 12,
                flags: 1,
                data_offset: 0,
            }]),
            ChunkType::SubObjects(vec![
                SubObject { first: 0, count: 3 },
                SubObject { first: 3, count: 2 }
            ]),
        ]
    );
    let kinds: Vec<ChunkKind> = chunks.iter().map(|c| c.kind()).collect();
    assert_eq!(
        kinds,
        vec![
            ChunkKind::IndexData,
            ChunkKind::Comment,
            ChunkKind::Data,
            ChunkKind::VertexData,
            ChunkKind::VertexAttributes,
            ChunkKind::SubObjects,
        ]
    );
}

#[test]
fn every_proper_prefix_of_a_container_is_truncated() {
    let bytes = container_with(
        b"SB6M",
        5,
        &[
            three(b"INDX", 0x1405, 300, 64),
            chunk_bytes(b"CMNT", b"a comment"),
            three(b"DATA", 9, 8, 7),
            vertex_chunk(2, 5, &stream(10)),
            attribute_chunk(&position_and_normal()),
            list_chunk(&[(0, 3), (3, 2)]),
        ],
    );
    let (_, end) = parse_chunks(&bytes).unwrap();
    assert_eq!(end, bytes.len());
    for cut in 0..bytes.len() {
        match parse_object(&bytes[..cut]) {
            Err(ParseError::Truncated { .. }) => {}
            other => panic!("cut at {}: {:?}", cut, other),
        }
    }
}

#[test]
fn truncation_names_the_bytes_that_the_read_asked_for() {
    assert_eq!(parse_object(b"SB6").err(), Some(ParseError::Truncated { needed: 4 }));
    assert_eq!(parse_object(b"SB6M\x10\0\0").err(), Some(ParseError::Truncated { needed: 4 }));
    let whole = vertex_chunk(0, 3, &stream(9));
    assert_eq!(
        vertex_data(&whole[..whole.len() - 1], 0).err(),
        Some(ParseError::Truncated { needed: 9 })
    );
    assert_eq!(vertex_data(&whole[..19], 0).err(), Some(ParseError::Truncated { needed: 4 }));
    let comment_chunk = chunk_bytes(b"CMNT", b"hello");
    assert_eq!(
        comment(&comment_chunk[..12], 0).err(),
        Some(ParseError::Truncated { needed: 5 })
    );
    let one = record(b"position", 3, FLOAT, 12, 0, 0);
    assert_eq!(vertex_attribute(&one[..63], 0).err(), Some(ParseError::Truncated { needed: 64 }));
    assert_eq!(vertex_attribute(&one[..64], 0).err(), Some(ParseError::Truncated { needed: 4 }));
    assert_eq!(vertex_attribute(&one[..83], 0).err(), Some(ParseError::Truncated { needed: 4 }));
    assert_eq!(vertex_attribute(&one, 1).err(), Some(ParseError::Truncated { needed: 4 }));
    assert_eq!(vertex_attribute(&one, 21).err(), Some(ParseError::Truncated { needed: 64 }));
    assert_eq!(vertex_attribute(&one, 85).err(), Some(ParseError::Truncated { needed: 64 }));
    let list = list_chunk(&[(1, 2), (3, 4)]);
    assert_eq!(sub_objects(&list[..27], 0).err(), Some(ParseError::Truncated { needed: 4 }));
    assert_eq!(sub_objects(&list[..11], 0).err(), Some(ParseError::Truncated { needed: 4 }));
}

#[test]
fn an_unknown_tag_is_refused() {
    let bytes = container(&[three(b"DATA", 1, 2, 3), three(b"BLOB", 1, 2, 3)]);
    assert_eq!(
        parse_object(&bytes).err(),
        Some(ParseError::UnknownChunkTag { tag: *b"BLOB" })
    );
    assert_eq!(
        chunk_kind(b"indx", 0),
        Err(ParseError::UnknownChunkTag { tag: *b"indx" })
    );
    assert_eq!(
        chunk_header(b"WXYZ\x08\0\0\0", 0).err(),
        Some(ParseError::UnknownChunkTag { tag: *b"WXYZ" })
    );
    assert_eq!(chunk(b"\0\0\0\0", 0).err(), Some(ParseError::UnknownChunkTag { tag: [0; 4] }));
}

#[test]
fn tags_select_their_kinds() {
    assert_eq!(chunk_kind(b"INDX", 0), Ok(ChunkKind::IndexData));
    assert_eq!(chunk_kind(b"VRTX", 0), Ok(ChunkKind::VertexData));
    assert_eq!(chunk_kind(b"ATRB", 0), Ok(ChunkKind::VertexAttributes));
    assert_eq!(chunk_kind(b"OLST", 0), Ok(ChunkKind::SubObjects));
    assert_eq!(chunk_kind(b"CMNT", 0), Ok(ChunkKind::Comment));
    assert_eq!(chunk_kind(b"DATA", 0), Ok(ChunkKind::Data));
    assert_eq!(chunk_kind(b"..DATA", 2), Ok(ChunkKind::Data));
    assert_eq!(chunk_kind(b"DAT", 0), Err(ParseError::Truncated { needed: 4 }));
    assert_eq!(chunk_kind(b"DATA", 1), Err(ParseError::Truncated { needed: 4 }));
    assert_eq!(chunk_kind(b"DATA", 5), Err(ParseError::Truncated { needed: 4 }));
    assert_eq!(chunk_kind(b"DATA", usize::MAX), Err(ParseError::Truncated { needed: 4 }));
    for kind in [
        ChunkKind::IndexData,
        ChunkKind::VertexData,
        ChunkKind::VertexAttributes,
        ChunkKind::SubObjects,
        ChunkKind::Comment,
        ChunkKind::Data,
    ] {
        assert_eq!(chunk_kind(kind.tag().as_bytes(), 0), Ok(kind));
    }
}

#[test]
fn chunk_header_names_the_tag_and_the_size() {
    let bytes = three(b"INDX", 1, 2, 3);
    assert_eq!(
        chunk_header(&bytes, 0),
        Ok((ChunkHeader { name: "INDX".to_string(), chunk_size: 20 }, 8))
    );
    let mut shifted = vec![0xFF; 3];
    shifted.extend_from_slice(b"OLST\x01\x02\x03\x04");
    assert_eq!(
        chunk_header(&shifted, 3),
        Ok((ChunkHeader { name: "OLST".to_string(), chunk_size: 0x04030201 }, 11))
    );
    assert_eq!(chunk_header(b"OLST\x01\x02\x03", 0).err(), Some(ParseError::Truncated { needed: 4 }));
}

#[test]
fn fixed_chunks_decode_at_any_position() {
    let mut bytes = vec![0u8; 5];
    bytes.extend_from_slice(&three(b"INDX", 0x1403, 6, 0x100));
    bytes.extend_from_slice(&three(b"DATA", 0xFFFF_FFFF, 0, 0x8000_0000));
    assert_eq!(
        index_data(&bytes, 5),
        Ok((IndexData { index_type: 0x1403, index_count: 6, index_data_offset: 0x100 }, 25))
    );
    assert_eq!(
        data(&bytes, 25),
        Ok((Data { encoding: 0xFFFF_FFFF, data_offset: 0, data_length: 0x8000_0000 }, 45))
    );
    assert_eq!(index_data(&bytes, 26).err(), Some(ParseError::UnknownChunkTag { tag: *b"ATA\x14" }));
    assert_eq!(data(&bytes, 30).err(), Some(ParseError::UnknownChunkTag { tag: [0, 0, 0, 0xFF] }));
    assert_eq!(data(&bytes[..44], 25).err(), Some(ParseError::Truncated { needed: 4 }));
}

#[test]
fn comment_is_trimmed_of_trailing_nul_and_space() {
    let bytes = chunk_bytes(b"CMNT", b" two  words \0 \0\0  ");
    assert_eq!(comment(&bytes, 0), Ok((" two  words".to_string(), bytes.len())));
    let inner = chunk_bytes(b"CMNT", b"a\0b");
    assert_eq!(comment(&inner, 0), Ok(("a\0b".to_string(), 11)));
    let empty = chunk_bytes(b"CMNT", b"");
    assert_eq!(comment(&empty, 0), Ok((String::new(), 8)));
    let blank = chunk_bytes(b"CMNT", b"  \0 ");
    assert_eq!(comment(&blank, 0), Ok((String::new(), 12)));
    let accented = chunk_bytes(b"CMNT", "café\0".as_bytes());
    assert_eq!(comment(&accented, 0), Ok(("café".to_string(), accented.len())));
}

#[test]
fn comment_with_a_size_below_its_header_is_refused() {
    let mut bytes = b"CMNT".to_vec();
    put(&mut bytes, 3);
    bytes.extend_from_slice(b"rest");
    for size in [0u32, 3, 7] {
        bytes[4..8].copy_from_slice(&size.to_le_bytes());
        assert_eq!(comment(&bytes, 0).err(), Some(ParseError::Truncated { needed: 8 }));
        assert_eq!(chunk(&bytes, 0).err(), Some(ParseError::Truncated { needed: 8 }));
    }
    bytes[4..8].copy_from_slice(&8u32.to_le_bytes());
    assert_eq!(comment(&bytes, 0), Ok((String::new(), 8)));
    bytes[4..8].copy_from_slice(&12u32.to_le_bytes());
    assert_eq!(comment(&bytes, 0), Ok(("rest".to_string(), 12)));
    bytes[4..8].copy_from_slice(&13u32.to_le_bytes());
    assert_eq!(comment(&bytes, 0).err(), Some(ParseError::Truncated { needed: 5 }));
}

#[test]
fn comment_data_and_index_chunks_do_not_change_the_assembly() {
    let vertices = stream(24);
    let core = vec![
        vertex_chunk(0, 2, &vertices),
        attribute_chunk(&position_and_normal()),
        list_chunk(&[(0, 1), (1, 1)]),
    ];
    let plain = container(&core);
    let expected = parse_object(&plain).unwrap();
    let others =
        [chunk_bytes(b"CMNT", b"note"), three(b"DATA", 1, 2, 3), three(b"INDX", 4, 5, 6)];
    for other in &others {
        for place in 0..=core.len() {
            let mut chunks = core.clone();
            chunks.insert(place, other.clone());
            let bytes = container(&chunks);
            assert_eq!(parse_object(&bytes).unwrap(), expected);
        }
    }
    let mut all = others.to_vec();
    all.extend(core.iter().cloned());
    all.extend(others.iter().cloned());
    assert_eq!(parse_object(&container(&all)).unwrap(), expected);
}

#[test]
fn comment_that_is_not_utf8_is_read_with_replacements() {
    let bytes = chunk_bytes(b"CMNT", b"ab\xFFcd\0");
    assert_eq!(comment(&bytes, 0), Ok(("ab\u{FFFD}cd".to_string(), bytes.len())));
}

#[test]
fn attribute_name_is_trimmed_of_trailing_nul_only() {
    let one = record(b"tex coord \0", 2, FLOAT, 8, 0, 24);
    assert_eq!(
        vertex_attribute(&one, 0),
        Ok((
            VertexAttribute {
                name: "tex coord ".to_string(),
                size: 2,
                attribute_type: FLOAT,
                stride: 8,
                flags: 0,
                data_offset: 24,
            },
            84
        ))
    );
    let full = record(&[b'n'; 64], 1, 2, 3, 4, 5);
    let (attribute, _) = vertex_attribute(&full, 0).unwrap();
    assert_eq!(attribute.name.len(), 64);
    let accented = record("normále".as_bytes(), 1, 2, 3, 4, 5);
    assert_eq!(vertex_attribute(&accented, 0).unwrap().0.name, "normále");
    let unnamed = record(b"", 1, 2, 3, 4, 5);
    assert_eq!(vertex_attribute(&unnamed, 0).unwrap().0.name, "");
}

#[test]
fn attribute_name_that_is_not_utf8_is_malformed() {
    let one = record(b"pos\xFFition", 3, FLOAT, 12, 0, 0);
    assert_eq!(vertex_attribute(&one, 0).err(), Some(ParseError::MalformedAttributeRecord));
    let bytes = container(&[
        vertex_chunk(0, 1, &stream(12)),
        attribute_chunk(&[record(b"position", 3, FLOAT, 12, 0, 0), one.clone()]),
    ]);
    assert_eq!(parse_object(&bytes).err(), Some(ParseError::MalformedAttributeRecord));
    let cut_inside = record(b"split \xC3", 3, FLOAT, 12, 0, 0);
    assert_eq!(vertex_attribute(&cut_inside, 0).err(), Some(ParseError::MalformedAttributeRecord));
}

#[test]
fn a_malformed_record_counts_only_once_it_is_all_there() {
    let bad = record(b"\xFF", 3, FLOAT, 12, 0, 0);
    assert_eq!(vertex_attribute(&bad[..80], 0).err(), Some(ParseError::Truncated { needed: 4 }));
    let list = attribute_chunk(&[record(b"fine", 1, 1, 1, 1, 1), bad.clone()]);
    assert_eq!(
        vertex_attributes(&list[..list.len() - 1], 0).err(),
        Some(ParseError::Truncated { needed: 4 })
    );
    assert_eq!(vertex_attributes(&list, 0).err(), Some(ParseError::MalformedAttributeRecord));
}

#[test]
fn attribute_lists_keep_their_order() {
    let list = attribute_chunk(&position_and_normal());
    let (attributes, end) = vertex_attributes(&list, 0).unwrap();
    assert_eq!(end, 8 + 4 + 2 * 84);
    assert_eq!(attributes.len(), 2);
    assert_eq!(attributes[0].name, "position");
    assert_eq!(attributes[0].data_offset, 0);
    assert_eq!(attributes[1].name, "normal");
    assert_eq!(attributes[1].data_offset, 12);
    let none = attribute_chunk(&[]);
    assert_eq!(vertex_attributes(&none, 0), Ok((vec![], 12)));
}

#[test]
fn normalized_is_the_lowest_flag_bit() {
    let mut attribute = vertex_attribute(&record(b"a", 1, 2, 3, 0, 5), 0).unwrap().0;
    assert!(!attribute.is_normalized());
    attribute.flags = 1;
    assert!(attribute.is_normalized());
    attribute.flags = 2;
    assert!(!attribute.is_normalized());
    attribute.flags = 3;
    assert!(attribute.is_normalized());
    attribute.flags = 0xFFFF_FFFE;
    assert!(!attribute.is_normalized());
}

#[test]
fn vertex_stream_is_borrowed_as_stored() {
    let vertices = stream(300);
    let mut bytes = vec![9u8; 2];
    bytes.extend_from_slice(&vertex_chunk(77, 25, &vertices));
    bytes.extend_from_slice(b"after");
    let (found, end) = vertex_data(&bytes, 2).unwrap();
    assert_eq!(end, 2 + 20 + 300);
    assert_eq!(found.data_offset, 77);
    assert_eq!(found.total_vertices, 25);
    assert_eq!(found.vertices, &vertices[..]);
    assert_eq!(found.data_size(), 300);
    let empty = vertex_chunk(0, 0, &[]);
    let (found, end) = vertex_data(&empty, 0).unwrap();
    assert_eq!(end, 20);
    assert_eq!(found.data_size(), 0);
}

#[test]
fn sub_object_lists_decode_pair_by_pair() {
    let list = list_chunk(&[(1, 2), (0xFFFF_FFFF, 0), (7, 7)]);
    assert_eq!(
        sub_objects(&list, 0),
        Ok((
            vec![
                SubObject { first: 1, count: 2 },
                SubObject { first: 0xFFFF_FFFF, count: 0 },
                SubObject { first: 7, count: 7 },
            ],
            36
        ))
    );
    let mut huge = b"OLST".to_vec();
    put(&mut huge, 0);
    put(&mut huge, u32::MAX);
    huge.extend_from_slice(&[0; 64]);
    assert_eq!(sub_objects(&huge, 0).err(), Some(ParseError::Truncated { needed: 4 }));
}

#[test]
fn assembling_chunks_made_by_hand() {
    let vertices = stream(48);
    let chunks = vec![
        ChunkType::Comment("first".to_string()),
        ChunkType::VertexData(VertexData { data_offset: 0, total_vertices: 2, vertices: &vertices }),
        ChunkType::VertexAttributes(vec![
            VertexAttribute {
                name: "position".to_string(),
                size: 3,
                attribute_type: FLOAT,
                stride: 24,
                flags: 0,
                data_offset: 0,
            },
            VertexAttribute {
                name: "color".to_string(),
                size: 4,
                attribute_type: 0x1401,
                stride: 24,
                flags: 1,
                data_offset: 12,
            },
        ]),
        ChunkType::IndexData(IndexData { index_type: 1, index_count: 2, index_data_offset: 3 }),
    ];
    let assembly = prepare_object(chunks);
    assert_eq!(
        assembly,
        Assembly {
            vertices: Some(&vertices[..]),
            attributes: vec![
                AttributeBinding {
                    index: 0,
                    component_count: 3,
                    component_type: FLOAT,
                    normalized: false,
                    stride: 24,
                    offset: 0,
                },
                AttributeBinding {
                    index: 1,
                    component_count: 4,
                    component_type: 0x1401,
                    normalized: true,
                    stride: 24,
                    offset: 12,
                },
            ],
            sub_objects: vec![SubObject { first: 0, count: 2 }],
        }
    );
}

#[test]
fn assembling_without_vertex_data_or_attributes() {
    let assembly = prepare_object(vec![ChunkType::SubObjects(vec![SubObject { first: 4, count: 5 }])]);
    assert_eq!(
        assembly,
        Assembly { vertices: None, attributes: vec![], sub_objects: vec![SubObject { first: 4, count: 5 }] }
    );
    let only_attributes = prepare_object(vec![ChunkType::VertexAttributes(vec![])]);
    assert_eq!(only_attributes.sub_objects, vec![SubObject { first: 0, count: 0 }]);
}

#[test]
fn draws_follow_the_table() {
    let bytes = container(&[
        vertex_chunk(0, 36, &stream(36)),
        list_chunk(&[(0, 10), (10, 20), (30, 6)]),
    ]);
    let object = parse_object(&bytes).unwrap().into_object(11, 22);
    assert_eq!(
        render_all(&object),
        vec![
            DrawCall {
                vao: 22,
                mode: glenum::TRIANGLES,
                first: 0,
                count: 10,
                instance_count: 1,
                base_instance: 0
            },
            DrawCall {
                vao: 22,
                mode: glenum::TRIANGLES,
                first: 10,
                count: 20,
                instance_count: 1,
                base_instance: 0
            },
            DrawCall {
                vao: 22,
                mode: glenum::TRIANGLES,
                first: 30,
                count: 6,
                instance_count: 1,
                base_instance: 0
            },
        ]
    );
    assert_eq!(
        render_object(&object, 1, 64, 8),
        Ok(DrawCall {
            vao: 22,
            mode: glenum::TRIANGLES,
            first: 10,
            count: 20,
            instance_count: 64,
            base_instance: 8
        })
    );
    assert_eq!(render_object(&object, 2, 1, 0).map(|call| call.first), Ok(30));
}

#[test]
fn a_draw_past_the_table_is_out_of_range() {
    let bytes = container(&[vertex_chunk(0, 36, &stream(36)), list_chunk(&[(0, 10), (10, 20)])]);
    let object = parse_object(&bytes).unwrap().into_object(1, 2);
    assert_eq!(render_object(&object, 2, 1, 0), Err(ParseError::IndexOutOfRange));
    assert_eq!(render_object(&object, u32::MAX, 1, 0), Err(ParseError::IndexOutOfRange));
    let empty = Object::default();
    assert_eq!(render_object(&empty, 0, 1, 0), Err(ParseError::IndexOutOfRange));
    assert_eq!(render_all(&empty), vec![]);
}

#[test]
fn defaults_are_empty() {
    let object = Object::default();
    assert_eq!(object.vbo(), 0);
    assert_eq!(object.vao(), 0);
    assert!(object.attributes().is_empty());
    assert!(object.sub_objects().is_empty());
    assert_eq!(SubObject::default(), SubObject { first: 0, count: 0 });
}

#[test]
fn decoding_a_container_twice_gives_the_same() {
    let bytes = container(&[
        attribute_chunk(&position_and_normal()),
        vertex_chunk(0, 5, &stream(120)),
        chunk_bytes(b"CMNT", b"x\xFF"),
    ]);
    assert_eq!(parse_chunks(&bytes), parse_chunks(&bytes));
    assert_eq!(parse_object(&bytes), parse_object(&bytes));
}
