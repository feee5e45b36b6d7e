use nexus_store::cbor::{
    decode_block, decode_chunk, decode_header, encode_block, encode_header,
    encode_section_heading, ChunkError, ChunkWriter,
};
use nexus_store::envelope::PersistedEnvelope;
use nexus_store::import::ImportBlock;
use nexus_store::value::MAX_EVENT_TYPE_LEN;
use nexus_store::version::{GlobalSeq, SchemaVersion, Version};

/// Build a `PersistedEnvelope` directly: backing buffer = [event_type | metadata? | payload].
fn persisted(
    version: u64,
    schema: u32,
    event_type: &str,
    metadata: Option<&[u8]>,
    payload: &[u8],
) -> PersistedEnvelope {
    let mut buf = Vec::new();
    buf.extend_from_slice(event_type.as_bytes());
    let et_end = u32::try_from(buf.len()).expect("fits");
    let meta_range = metadata.map(|m| {
        let start = u32::try_from(buf.len()).expect("fits");
        buf.extend_from_slice(m);
        start..u32::try_from(buf.len()).expect("fits")
    });
    let pl_start = u32::try_from(buf.len()).expect("fits");
    buf.extend_from_slice(payload);
    let pl_end = u32::try_from(buf.len()).expect("fits");
    PersistedEnvelope::try_new(
        Version::new(version).expect("nonzero"),
        GlobalSeq::new(version).expect("nonzero"),
        buf,
        SchemaVersion::from_u32(schema).expect("nonzero"),
        0..et_end,
        pl_start..pl_end,
        meta_range,
    )
    .expect("valid persisted")
}

/// Decode a single block from a freshly-encoded block buffer.
fn decode_one_block(bytes: &[u8]) -> ImportBlock {
    decode_block(bytes, 0)
        .expect("not malformed")
        .expect("not torn")
        .0
}

/// Encode a full multi-stream chunk: header + per-stream heading + blocks.
fn encode_chunk(origin: Option<&[u8]>, streams: &[(&[u8], Vec<PersistedEnvelope>)]) -> Vec<u8> {
    let mut buf = Vec::new();
    buf.extend_from_slice(&encode_header(origin));
    for (stream_id, events) in streams {
        buf.extend_from_slice(&encode_section_heading(stream_id));
        for e in events {
            buf.extend_from_slice(&encode_block(e));
        }
    }
    buf
}

/// A block `[crc32c(body), body]` around hand-made body bytes.
fn block_around(body: &[u8]) -> Vec<u8> {
    let mut out = Vec::new();
    let mut e = minicbor::Encoder::new(&mut out);
    e.array(2)
        .expect("array")
        .u32(crc32c::crc32c(body))
        .expect("crc")
        .bytes(body)
        .expect("body");
    out
}

fn is_malformed(r: &Result<Vec<nexus_store::import::StreamSection>, ChunkError>, hint: &str) -> bool {
    matches!(r, Err(ChunkError::Malformed(h)) if *h == hint)
}

#[test]
fn writer_multi_section_round_trips() {
    let mut w = ChunkWriter::new(Vec::new(), Some(b"dev"));
    {
        let mut s = w.section(b"task-1");
        s.block(&persisted(1, 1, "E", None, b"a1"));
        s.block(&persisted(2, 1, "E", Some(b"m"), b"a2"));
    }
    {
        let mut s = w.section(b"task-2");
        s.block(&persisted(1, 2, "E", None, b"b1"));
    }
    let chunk = w.into_sink();

    let sections = decode_chunk(&chunk).expect("decode");
    assert_eq!(sections.len(), 2);
    assert_eq!(sections[0].origin.as_slice(), b"task-1");
    assert_eq!(sections[0].blocks.len(), 2);
    assert_eq!(sections[1].origin.as_slice(), b"task-2");
    match (&sections[0].blocks[1], &sections[1].blocks[0]) {
        (ImportBlock::Event(a2), ImportBlock::Event(b1)) => {
            assert_eq!(a2.metadata(), Some(b"m".as_slice()));
            assert_eq!(a2.payload(), b"a2");
            assert_eq!(b1.schema_version(), 2);
            assert_eq!(b1.payload(), b"b1");
        }
        _ => panic!("expected Event blocks"),
    }
}

#[test]
fn writer_empty_section_then_stream() {
    let mut w = ChunkWriter::new(Vec::new(), None);
    {
        let _s = w.section(b"empty");
    }
    {
        let mut s = w.section(b"real");
        s.block(&persisted(1, 1, "E", None, b"x"));
    }
    let sections = decode_chunk(&w.into_sink()).expect("decode");
    assert_eq!(sections.len(), 2);
    assert_eq!(sections[0].origin.as_slice(), b"empty");
    assert!(sections[0].blocks.is_empty());
    assert_eq!(sections[1].blocks.len(), 1);
}

#[test]
fn writer_header_decodes() {
    let w = ChunkWriter::new(Vec::new(), Some(b"dev-1"));
    let bytes = w.into_sink();
    let header = decode_header(&bytes).expect("decode header");
    assert_eq!(header.format_version, 1);
    assert_eq!(header.origin.as_deref(), Some(b"dev-1".as_slice()));
}

#[test]
fn block_round_trips_all_fields() {
    let event = persisted(7, 3, "AccountOpened", Some(b"hlc=42"), b"balance:100");
    let bytes = encode_block(&event);
    match decode_one_block(&bytes) {
        ImportBlock::Event(got) => {
            assert_eq!(got.version().as_u64(), 7);
            assert_eq!(got.schema_version(), 3);
            assert_eq!(got.event_type(), "AccountOpened");
            assert_eq!(got.metadata(), Some(b"hlc=42".as_slice()));
            assert_eq!(got.payload(), b"balance:100");
        }
        ImportBlock::Corrupt => panic!("expected Event, got Corrupt"),
    }
}

#[test]
fn block_round_trips_without_metadata_and_empty_payload() {
    let event = persisted(1, 1, "E", None, b"");
    let bytes = encode_block(&event);
    match decode_one_block(&bytes) {
        ImportBlock::Event(got) => {
            assert_eq!(got.metadata(), None);
            assert_eq!(got.payload(), b"");
            assert_eq!(got.version().as_u64(), 1);
        }
        ImportBlock::Corrupt => panic!("expected Event"),
    }
}

#[test]
fn block_with_flipped_body_byte_is_corrupt() {
    let event = persisted(2, 1, "E", None, b"hello");
    let mut v = encode_block(&event);
    let last = v.len() - 1;
    v[last] ^= 0xFF;
    assert!(matches!(decode_one_block(&v), ImportBlock::Corrupt));
}

#[test]
fn header_round_trips_without_origin() {
    let bytes = encode_header(None);
    let header = decode_header(&bytes).expect("decode");
    assert_eq!(header.format_version, 1);
    assert_eq!(header.origin, None);
}

#[test]
fn header_round_trips_with_origin() {
    let bytes = encode_header(Some(b"phone-7"));
    let header = decode_header(&bytes).expect("decode");
    assert_eq!(header.format_version, 1);
    assert_eq!(header.origin.as_deref(), Some(b"phone-7".as_slice()));
}

#[test]
fn header_rejects_bad_magic() {
    let mut v = encode_header(None);
    let pos = v.iter().position(|&b| b == b'n').expect("magic present");
    v[pos] = b'X';
    let err = decode_header(&v).expect_err("bad magic rejected");
    assert!(matches!(err, ChunkError::Malformed("bad magic")));
}

#[test]
fn header_rejects_truncated() {
    let bytes = encode_header(Some(b"x"));
    let err = decode_header(&bytes[..bytes.len() / 2]).expect_err("truncated rejected");
    assert!(matches!(err, ChunkError::Malformed(_)));
}

#[test]
fn decode_chunk_round_trips_multi_stream() {
    let a = vec![
        persisted(1, 1, "E", None, b"a1"),
        persisted(2, 1, "E", Some(b"m"), b"a2"),
    ];
    let b = vec![persisted(1, 2, "E", None, b"b1")];
    let chunk = encode_chunk(
        Some(b"dev-1"),
        &[(b"task-1".as_slice(), a), (b"task-2".as_slice(), b)],
    );

    let sections = decode_chunk(&chunk).expect("decode");
    assert_eq!(sections.len(), 2);

    assert_eq!(sections[0].origin.as_slice(), b"task-1");
    assert_eq!(sections[0].blocks.len(), 2);
    match (&sections[0].blocks[0], &sections[0].blocks[1]) {
        (ImportBlock::Event(e1), ImportBlock::Event(e2)) => {
            assert_eq!(e1.version().as_u64(), 1);
            assert_eq!(e1.payload(), b"a1");
            assert_eq!(e2.metadata(), Some(b"m".as_slice()));
            assert_eq!(e2.payload(), b"a2");
        }
        _ => panic!("expected two Event blocks"),
    }

    assert_eq!(sections[1].origin.as_slice(), b"task-2");
    match &sections[1].blocks[0] {
        ImportBlock::Event(e) => {
            assert_eq!(e.schema_version(), 2);
            assert_eq!(e.payload(), b"b1");
        }
        ImportBlock::Corrupt => panic!("expected Event"),
    }
}

#[test]
fn decode_header_only_chunk_is_empty_vec() {
    let chunk = encode_header(None);
    let sections = decode_chunk(&chunk).expect("decode");
    assert!(sections.is_empty());
}

#[test]
fn decode_block_before_heading_is_malformed() {
    let mut chunk = encode_header(None);
    let event = persisted(1, 1, "E", None, b"x");
    chunk.extend_from_slice(&encode_block(&event));
    let r = decode_chunk(&chunk);
    assert!(is_malformed(&r, "block before section heading"));
}

#[test]
fn decode_empty_section_then_stream() {
    let chunk = encode_chunk(
        None,
        &[
            (b"empty".as_slice(), vec![]),
            (b"real".as_slice(), vec![persisted(1, 1, "E", None, b"r")]),
        ],
    );
    let sections = decode_chunk(&chunk).expect("decode");
    assert_eq!(sections.len(), 2);
    assert!(sections[0].blocks.is_empty());
    assert_eq!(sections[0].origin.as_slice(), b"empty");
    assert_eq!(sections[1].blocks.len(), 1);
}

#[test]
fn flipped_body_byte_in_chunk_decodes_to_corrupt_block() {
    let chunk = encode_chunk(
        None,
        &[(b"s".as_slice(), vec![persisted(1, 1, "E", None, b"hello")])],
    );
    let mut v = chunk;
    let last = v.len() - 1;
    v[last] ^= 0xFF;
    let sections = decode_chunk(&v).expect("framing intact");
    assert_eq!(sections.len(), 1);
    assert!(matches!(sections[0].blocks[0], ImportBlock::Corrupt));
}

#[test]
fn bad_magic_chunk_is_malformed() {
    let mut v = encode_chunk(
        None,
        &[(b"s".as_slice(), vec![persisted(1, 1, "E", None, b"x")])],
    );
    let pos = v.iter().position(|&b| b == b'n').expect("magic");
    v[pos] = b'Z';
    assert!(is_malformed(&decode_chunk(&v), "bad magic"));
}

#[test]
fn unknown_format_version_is_malformed() {
    let mut bytes = Vec::new();
    {
        let mut e = minicbor::Encoder::new(&mut bytes);
        e.map(2)
            .expect("map")
            .u32(0)
            .expect("k0")
            .bytes(b"nxch")
            .expect("magic")
            .u32(1)
            .expect("k1")
            .u32(2)
            .expect("format 2");
    }
    assert!(is_malformed(&decode_chunk(&bytes), "unknown format version"));
}

#[test]
fn unexpected_top_level_item_is_malformed() {
    let mut v = encode_header(None);
    v.push(0x01); // CBOR uint 1 — neither map nor array
    assert!(is_malformed(&decode_chunk(&v), "unexpected item type"));
}

#[test]
fn crc_valid_but_body_invalid_is_malformed() {
    let mut body = Vec::new();
    {
        let mut e = minicbor::Encoder::new(&mut body);
        e.map(4)
            .expect("map")
            .u32(0)
            .expect("k0")
            .u64(0)
            .expect("v0")
            .u32(1)
            .expect("k1")
            .u32(1)
            .expect("v1")
            .u32(2)
            .expect("k2")
            .str("E")
            .expect("v2")
            .u32(4)
            .expect("k4")
            .bytes(b"")
            .expect("v4");
    }
    let mut chunk = encode_header(None);
    chunk.extend_from_slice(&encode_section_heading(b"s"));
    chunk.extend_from_slice(&block_around(&body));
    assert!(matches!(decode_chunk(&chunk), Err(ChunkError::Malformed(_))));
}

/// The cumulative byte length after the header + heading + first N blocks.
fn prefix_len_after_n_blocks(stream_id: &[u8], events: &[PersistedEnvelope], n: usize) -> usize {
    let mut len = encode_header(None).len();
    len += encode_section_heading(stream_id).len();
    for e in events.iter().take(n) {
        len += encode_block(e).len();
    }
    len
}

#[test]
fn every_block_boundary_prefix_is_valid() {
    let events: Vec<_> = (1..=4).map(|v| persisted(v, 1, "E", None, b"p")).collect();
    let chunk = encode_chunk(None, &[(b"s".as_slice(), events.clone())]);
    for n in 0..=events.len() {
        let cut = prefix_len_after_n_blocks(b"s", &events, n);
        let sections = decode_chunk(&chunk[..cut]).expect("prefix valid");
        let got = sections.first().map_or(0, |s| s.blocks.len());
        assert_eq!(got, n, "prefix after {n} blocks must decode to {n} blocks");
    }
}

#[test]
fn torn_final_block_is_dropped_earlier_survive() {
    let events: Vec<_> = (1..=3)
        .map(|v| persisted(v, 1, "E", None, b"payload"))
        .collect();
    let chunk = encode_chunk(None, &[(b"s".as_slice(), events)]);
    let sections = decode_chunk(&chunk[..chunk.len() - 1]).expect("valid prefix");
    assert_eq!(sections[0].blocks.len(), 2, "torn 3rd block dropped");
    assert!(matches!(sections[0].blocks[0], ImportBlock::Event(_)));
}

#[test]
fn empty_input_is_malformed_header() {
    assert!(matches!(decode_chunk(&[]), Err(ChunkError::Malformed(_))));
}

fn hex_of(bytes: &[u8]) -> String {
    bytes
        .iter()
        .map(|b| format!("{b:02x}"))
        .collect::<Vec<_>>()
        .join(" ")
}

#[test]
fn golden_header_bytes() {
    let bytes = encode_header(Some(b"dev"));
    assert_eq!(hex_of(&bytes), "a3 00 44 6e 78 63 68 01 01 02 43 64 65 76");
}

#[test]
fn golden_block_bytes() {
    let event = persisted(1, 1, "E", None, b"hi");
    let bytes = encode_block(&event);
    let body: [u8; 12] = [0xa4, 0x00, 0x01, 0x01, 0x01, 0x02, 0x61, 0x45, 0x04, 0x42, 0x68, 0x69];
    let crc = crc32c::crc32c(&body).to_be_bytes();
    let mut expected = vec![0x82, 0x1a];
    expected.extend_from_slice(&crc);
    expected.push(0x4c);
    expected.extend_from_slice(&body);
    assert_eq!(hex_of(&bytes), hex_of(&expected));
}

#[test]
fn body_with_unknown_extra_key_still_decodes_to_event() {
    let mut body = Vec::new();
    {
        let mut e = minicbor::Encoder::new(&mut body);
        e.map(5)
            .expect("map")
            .u32(0)
            .expect("k0")
            .u64(3)
            .expect("v0")
            .u32(1)
            .expect("k1")
            .u32(1)
            .expect("v1")
            .u32(2)
            .expect("k2")
            .str("E")
            .expect("v2")
            .u32(4)
            .expect("k4")
            .bytes(b"data")
            .expect("v4")
            .u32(5)
            .expect("k5")
            .u32(999)
            .expect("v5");
    }
    let mut chunk = encode_header(None);
    chunk.extend_from_slice(&encode_section_heading(b"s"));
    chunk.extend_from_slice(&block_around(&body));
    let sections = decode_chunk(&chunk).expect("decode");
    match &sections[0].blocks[0] {
        ImportBlock::Event(e) => {
            assert_eq!(e.version().as_u64(), 3);
            assert_eq!(e.payload(), b"data");
        }
        ImportBlock::Corrupt => panic!("unknown key must be skipped, not corrupt"),
    }
}

#[test]
fn box_round_trips_every_payload_length_band() {
    for size in [0usize, 23, 24, 255, 256, 1024, 65536] {
        let payload = vec![0xABu8; size];
        let event = persisted(1, 1, "E", None, &payload);
        let bytes = encode_block(&event);
        match decode_one_block(&bytes) {
            ImportBlock::Event(got) => {
                assert_eq!(got.payload().len(), size, "payload size {size} length");
                assert_eq!(got.payload(), payload.as_slice(), "payload {size} bytes");
            }
            ImportBlock::Corrupt => panic!("payload size {size} must round-trip"),
        }
    }
}

#[test]
fn box_round_trips_event_type_at_2byte_band_and_max() {
    for et_len in [256usize, MAX_EVENT_TYPE_LEN] {
        let et = "a".repeat(et_len);
        let event = persisted(1, 1, &et, Some(b"m"), b"p");
        let bytes = encode_block(&event);
        match decode_one_block(&bytes) {
            ImportBlock::Event(got) => {
                assert_eq!(got.event_type().len(), et_len, "event_type len {et_len}");
                assert_eq!(got.event_type(), et);
                assert_eq!(got.metadata(), Some(b"m".as_slice()));
            }
            ImportBlock::Corrupt => panic!("event_type len {et_len} must round-trip"),
        }
    }
}

#[test]
fn box_round_trips_metadata_at_2byte_band() {
    let meta = vec![0x07u8; 300];
    let event = persisted(1, 1, "E", Some(&meta), b"p");
    match decode_one_block(&encode_block(&event)) {
        ImportBlock::Event(got) => assert_eq!(got.metadata(), Some(meta.as_slice())),
        ImportBlock::Corrupt => panic!("metadata 2-byte band must round-trip"),
    }
}

#[test]
fn decode_block_rejects_indefinite_array() {
    assert!(matches!(
        decode_block(&[0x9fu8], 0),
        Err("indefinite-length block array")
    ));
}

#[test]
fn decode_block_rejects_wrong_arity() {
    let mut buf = Vec::new();
    {
        let mut e = minicbor::Encoder::new(&mut buf);
        e.array(3).expect("array header");
    }
    assert!(matches!(
        decode_block(&buf, 0),
        Err("block array must have exactly 2 elements")
    ));
}

#[test]
fn indefinite_array_at_top_level_is_malformed() {
    let mut chunk = encode_header(None);
    chunk.extend_from_slice(&encode_section_heading(b"s"));
    chunk.push(0x9f); // array(*) indefinite
    chunk.push(0xff); // break
    assert!(is_malformed(&decode_chunk(&chunk), "unexpected item type"));
}

#[test]
fn torn_mid_heading_stops_at_valid_prefix() {
    let chunk = encode_chunk(
        None,
        &[(b"done".as_slice(), vec![persisted(1, 1, "E", None, b"x")])],
    );
    let mut v = chunk;
    let heading = encode_section_heading(b"truncated-stream-id");
    v.extend_from_slice(&heading[..heading.len() - 4]); // drop 4 id bytes
    let sections = decode_chunk(&v).expect("valid prefix");
    assert_eq!(sections.len(), 1, "torn heading produces no section");
    assert_eq!(sections[0].origin.as_slice(), b"done");
    assert_eq!(sections[0].blocks.len(), 1);
}

#[test]
fn header_missing_magic_key_is_malformed() {
    let mut bytes = Vec::new();
    {
        let mut e = minicbor::Encoder::new(&mut bytes);
        e.map(1)
            .expect("map")
            .u32(1)
            .expect("k1")
            .u32(1)
            .expect("v1");
    }
    assert!(matches!(decode_header(&bytes), Err(ChunkError::Malformed(_))));
    assert!(matches!(decode_chunk(&bytes), Err(ChunkError::Malformed(_))));
}

#[test]
fn crc_valid_body_with_empty_metadata_is_malformed() {
    let mut body = Vec::new();
    {
        let mut e = minicbor::Encoder::new(&mut body);
        e.map(5)
            .expect("map")
            .u32(0)
            .expect("k0")
            .u64(1)
            .expect("v0")
            .u32(1)
            .expect("k1")
            .u32(1)
            .expect("v1")
            .u32(2)
            .expect("k2")
            .str("E")
            .expect("v2")
            .u32(3)
            .expect("k3")
            .bytes(b"")
            .expect("v3")
            .u32(4)
            .expect("k4")
            .bytes(b"p")
            .expect("v4");
    }
    let mut chunk = encode_header(None);
    chunk.extend_from_slice(&encode_section_heading(b"s"));
    chunk.extend_from_slice(&block_around(&body));
    assert!(matches!(decode_chunk(&chunk), Err(ChunkError::Malformed(_))));
}

// ── Own scenarios ───────────────────────────────────────────────────────────

#[test]
fn indefinite_header_map_is_accepted() {
    // {_ 0: "nxch", 1: 1 } with a break terminator.
    let bytes = [0xbf, 0x00, 0x44, 0x6e, 0x78, 0x63, 0x68, 0x01, 0x01, 0xff];
    let header = decode_header(&bytes).expect("indefinite map decodes");
    assert_eq!(header.format_version, 1);
    assert_eq!(header.origin, None);
}

#[test]
fn null_origin_is_no_origin_and_duplicate_key_keeps_the_last() {
    // {0: "nxch", 1: 1, 2: null, 2: h'6f'}
    let bytes = [
        0xa4, 0x00, 0x44, 0x6e, 0x78, 0x63, 0x68, 0x01, 0x01, 0x02, 0xf6, 0x02, 0x41, 0x6f,
    ];
    let header = decode_header(&bytes).expect("decodes");
    assert_eq!(header.origin.as_deref(), Some(b"o".as_slice()));
    let bytes = [0xa3, 0x00, 0x44, 0x6e, 0x78, 0x63, 0x68, 0x01, 0x01, 0x02, 0xf6];
    let header = decode_header(&bytes).expect("decodes");
    assert_eq!(header.origin, None);
}

#[test]
fn malformed_hints_for_block_fields() {
    // array(2) then a text string where the crc should be.
    assert_eq!(decode_block(&[0x82, 0x61, 0x41], 0).err(), Some("malformed block crc"));
    // array(2), crc 0, then a uint where the body bytes should be.
    assert_eq!(
        decode_block(&[0x82, 0x00, 0x01], 0).err(),
        Some("malformed block body bytes")
    );
    // a map where a block array should be.
    assert_eq!(decode_block(&[0xa0], 0).err(), Some("malformed block array"));
    // torn after the array head.
    assert!(matches!(decode_block(&[0x82], 0), Ok(None)));
}

#[test]
fn crc_valid_body_missing_payload_fails_to_decode() {
    // {0: 1, 1: 1, 2: "E"} — no payload key.
    let body = [0xa3, 0x00, 0x01, 0x01, 0x01, 0x02, 0x61, 0x45];
    let mut chunk = encode_header(None);
    chunk.extend_from_slice(&encode_section_heading(b"s"));
    chunk.extend_from_slice(&block_around(&body));
    assert!(is_malformed(&decode_chunk(&chunk), "crc-valid body failed to decode"));
}

#[test]
fn crc_valid_body_with_zero_schema_has_invalid_fields() {
    // {0: 1, 1: 0, 2: "E", 4: h''}
    let body = [0xa4, 0x00, 0x01, 0x01, 0x00, 0x02, 0x61, 0x45, 0x04, 0x40];
    let mut chunk = encode_header(None);
    chunk.extend_from_slice(&encode_section_heading(b"s"));
    chunk.extend_from_slice(&block_around(&body));
    assert!(is_malformed(&decode_chunk(&chunk), "crc-valid body has invalid fields"));
}

#[test]
fn header_with_uint_magic_is_unreadable() {
    // {0: 5, 1: 1}
    let bytes = [0xa2, 0x00, 0x05, 0x01, 0x01];
    assert!(matches!(decode_header(&bytes), Err(ChunkError::Malformed("unreadable header"))));
}

#[test]
fn nested_unknown_values_are_skipped() {
    // {0: "nxch", 1: 1, 9: [1, {_ 2: h'00'}, "t"]}
    let bytes = [
        0xa3, 0x00, 0x44, 0x6e, 0x78, 0x63, 0x68, 0x01, 0x01, 0x09, 0x83, 0x01, 0xbf, 0x02, 0x41,
        0x00, 0xff, 0x61, 0x74,
    ];
    let header = decode_header(&bytes).expect("unknown key skipped");
    assert_eq!(header.format_version, 1);
}

#[test]
fn chunk_torn_at_every_byte_after_the_header_keeps_the_complete_items() {
    let a: Vec<_> = (1..=2).map(|v| persisted(v, 1, "E", Some(b"m"), b"pay")).collect();
    let b: Vec<_> = (1..=2).map(|v| persisted(v, 2, "F", None, b"")).collect();
    let streams = [(b"first".as_slice(), a.clone()), (b"second".as_slice(), b.clone())];
    let chunk = encode_chunk(None, &streams);
    // Item boundaries: (end offset, sections complete, blocks in the last one).
    let mut marks = vec![(encode_header(None).len(), 0usize, 0usize)];
    let mut end = marks[0].0;
    for (i, (id, evs)) in streams.iter().enumerate() {
        end += encode_section_heading(id).len();
        marks.push((end, i + 1, 0));
        for (n, e) in evs.iter().enumerate() {
            end += encode_block(e).len();
            marks.push((end, i + 1, n + 1));
        }
    }
    assert_eq!(end, chunk.len());
    for cut in encode_header(None).len()..=chunk.len() {
        let (_, secs, blocks) = *marks.iter().rev().find(|m| m.0 <= cut).expect("a mark");
        let sections = decode_chunk(&chunk[..cut]).expect("a torn tail is a valid prefix");
        assert_eq!(sections.len(), secs, "sections at cut {cut}");
        if secs > 0 {
            assert_eq!(sections[secs - 1].blocks.len(), blocks, "blocks at cut {cut}");
            assert_eq!(sections[secs - 1].origin.as_slice(), streams[secs - 1].0);
        }
    }
}

#[test]
fn chunk_cut_inside_its_header_is_refused() {
    for origin in [None, Some(b"device-7".as_slice())] {
        let chunk = encode_chunk(origin, &[(b"s".as_slice(), vec![persisted(1, 1, "E", None, b"p")])]);
        for cut in 0..encode_header(origin).len() {
            assert!(
                is_malformed(&decode_chunk(&chunk[..cut]), "unreadable header"),
                "cut {cut} inside the header must be refused"
            );
        }
    }
}

#[test]
fn every_changed_body_byte_reads_as_corrupt_and_ends_where_the_block_did() {
    let event = persisted(3, 2, "Renamed", Some(b"meta"), b"payload bytes");
    let block = encode_block(&event);
    let end = decode_block(&block, 0).expect("not malformed").expect("not torn").1;
    assert_eq!(end, block.len());
    // The body is the tail of the block, after the array, checksum and
    // byte-string heads.
    let body_len = block.len() - 1 - 5 - 2;
    for i in block.len() - body_len..block.len() {
        for flip in [0x01u8, 0x80, 0xFF] {
            let mut v = block.clone();
            v[i] ^= flip;
            let (b, q) = decode_block(&v, 0).expect("not malformed").expect("not torn");
            assert!(matches!(b, ImportBlock::Corrupt), "byte {i} flipped by {flip:#x}");
            assert_eq!(q, block.len());
        }
    }
}
