//! The backup box: the bytes↔sections travel codec for export/import.
//!
//! A chunk is a CBOR sequence (RFC 8742): one header map
//! `{0: magic "nxch", 1: format_version 1, 2: origin?}`, then per-stream
//! section headings `{0: stream_id}`, each followed by the stream's blocks.
//! A block is the array `[crc32c(body), body]`, where `body` is the byte
//! string of the map `{0: version, 1: schema_version, 2: event_type,
//! 3: metadata?, 4: payload}`. The global sequence is deliberately absent:
//! it is store-local and restamped on import.
//!
//! Decoding walks the sequence: a map starts a section, an array is a block
//! of the current section. A torn tail (input ending mid-item) stops
//! cleanly with the valid prefix; a block whose checksum fails becomes
//! [`ImportBlock::Corrupt`]; every other structural problem is
//! [`ChunkError::Malformed`].
use core::ops::Range;
use vstd::prelude::*;
use vstd::utf8::valid_utf8;
use crate::envelope::PersistedEnvelope;
use crate::import::{ImportBlock, StreamSection};
use crate::value::{MAX_EVENT_TYPE_LEN, MAX_METADATA_LEN};
use crate::version::{GlobalSeq, SchemaVersion, Version};

verus! {

broadcast use crate::version::group_positions;

// =============================================================================
// Items of the CBOR encoding used by the box
// =============================================================================

/// One bit of the CRC-32C shift register (reflected Castagnoli polynomial
/// `0x82F63B78`).
pub open spec fn crc32c_shift(c: u32) -> u32 {
    if c & 1 == 1 {
        (c >> 1) ^ 0x82F63B78u32
    } else {
        c >> 1
    }
}

/// The register after folding in one byte.
pub open spec fn crc32c_byte(c: u32, b: u8) -> u32 {
    let x = c ^ (b as u32);
    crc32c_shift(
        crc32c_shift(
            crc32c_shift(crc32c_shift(crc32c_shift(crc32c_shift(crc32c_shift(crc32c_shift(x)))))),
        ),
    )
}

/// The register after folding in `data`, starting from all ones.
pub open spec fn crc32c_register(data: Seq<u8>) -> u32
    decreases data.len(),
{
    if data.len() == 0 {
        0xFFFF_FFFFu32
    } else {
        crc32c_byte(crc32c_register(data.drop_last()), data.last())
    }
}

/// The checksum of `data`: CRC-32C (Castagnoli), the register inverted.
#[verifier::opaque]
pub open spec fn crc32c_of(data: Seq<u8>) -> u32 {
    crc32c_register(data) ^ 0xFFFF_FFFFu32
}

/// The CRC-32C of `data`, from the `crc32c` crate.
///
/// Trusted: claims that the crate computes the CRC-32C (Castagnoli) of the
/// bytes, as `crc32c_of` spells it out bit by bit.
#[verifier::external_body]
fn crc32c(data: &[u8]) -> (r: u32)
    ensures
        r == crc32c_of(data@),
{
    crc32c::crc32c(data)
}

/// The chunk magic, `b"nxch"`.
pub open spec fn magic() -> Seq<u8> {
    seq![0x6eu8, 0x78u8, 0x63u8, 0x68u8]
}

/// The only chunk format version this build reads and writes.
pub const FORMAT_VERSION: u32 = 1;

/// Major types of the CBOR data model that the box uses.
pub const MAJOR_UINT: u8 = 0;
pub const MAJOR_NINT: u8 = 1;
pub const MAJOR_BYTES: u8 = 2;
pub const MAJOR_TEXT: u8 = 3;
pub const MAJOR_ARRAY: u8 = 4;
pub const MAJOR_MAP: u8 = 5;
pub const MAJOR_TAG: u8 = 6;
pub const MAJOR_SIMPLE: u8 = 7;

/// Two bytes, big-endian.
pub open spec fn be2(n: u64) -> Seq<u8> {
    seq![((n / 0x100) % 0x100) as u8, (n % 0x100) as u8]
}

/// Four bytes, big-endian.
pub open spec fn be4(n: u64) -> Seq<u8> {
    seq![
        ((n / 0x1000000) % 0x100) as u8,
        ((n / 0x10000) % 0x100) as u8,
        ((n / 0x100) % 0x100) as u8,
        (n % 0x100) as u8,
    ]
}

/// Eight bytes, big-endian.
pub open spec fn be8(n: u64) -> Seq<u8> {
    be4(n / 0x100000000) + be4(n % 0x100000000)
}

/// The shortest head of a data item: major type and argument `n`.
#[verifier::opaque]
pub open spec fn head(major: u8, n: u64) -> Seq<u8> {
    let m = (major * 32) as int;
    if n < 24 {
        seq![(m + n) as u8]
    } else if n < 0x100 {
        seq![(m + 24) as u8, n as u8]
    } else if n < 0x10000 {
        seq![(m + 25) as u8] + be2(n)
    } else if n < 0x100000000 {
        seq![(m + 26) as u8] + be4(n)
    } else {
        seq![(m + 27) as u8] + be8(n)
    }
}

/// An unsigned integer.
pub open spec fn enc_uint(n: u64) -> Seq<u8> {
    head(MAJOR_UINT, n)
}

/// A definite-length byte string.
pub open spec fn enc_bytes(b: Seq<u8>) -> Seq<u8> {
    head(MAJOR_BYTES, b.len() as u64) + b
}

/// A definite-length text string (its UTF-8 bytes).
pub open spec fn enc_text(b: Seq<u8>) -> Seq<u8> {
    head(MAJOR_TEXT, b.len() as u64) + b
}

/// The chunk header `{0: magic, 1: 1, 2: origin?}`.
pub open spec fn header_spec(origin: Option<Seq<u8>>) -> Seq<u8> {
    let fixed = enc_uint(0) + enc_bytes(magic()) + enc_uint(1) + enc_uint(FORMAT_VERSION as u64);
    match origin {
        Some(o) => head(MAJOR_MAP, 3) + fixed + enc_uint(2) + enc_bytes(o),
        None => head(MAJOR_MAP, 2) + fixed,
    }
}

/// A section heading `{0: stream_id}`.
pub open spec fn heading_spec(stream_id: Seq<u8>) -> Seq<u8> {
    head(MAJOR_MAP, 1) + enc_uint(0) + enc_bytes(stream_id)
}

/// A block body `{0: version, 1: schema, 2: event_type, 3: metadata?, 4: payload}`.
pub open spec fn body_spec(
    version: u64,
    schema: u32,
    event_type: Seq<u8>,
    metadata: Option<Seq<u8>>,
    payload: Seq<u8>,
) -> Seq<u8> {
    let front = enc_uint(0) + enc_uint(version) + enc_uint(1) + enc_uint(schema as u64) + enc_uint(
        2,
    ) + enc_text(event_type);
    let back = enc_uint(4) + enc_bytes(payload);
    match metadata {
        Some(m) => head(MAJOR_MAP, 5) + front + enc_uint(3) + enc_bytes(m) + back,
        None => head(MAJOR_MAP, 4) + front + back,
    }
}

/// A block `[crc32c(body), body]`.
pub open spec fn block_spec(body: Seq<u8>) -> Seq<u8> {
    head(MAJOR_ARRAY, 2) + enc_uint(crc32c_of(body) as u64) + enc_bytes(body)
}

/// The body of an event's block.
pub open spec fn event_body(e: PersistedEnvelope) -> Seq<u8> {
    body_spec(
        e.spec_version().spec_u64(),
        e.spec_schema_version().spec_u32(),
        e.event_type_view(),
        e.metadata_view(),
        e.payload_view(),
    )
}

/// Append the head of a data item.
pub fn push_head(out: &mut Vec<u8>, major: u8, n: u64)
    requires
        major < 8,
    ensures
        final(out)@ == old(out)@ + head(major, n),
{
    proof {
        reveal(head);
    }
    let m: u8 = major * 32;
    if n < 24 {
        out.push(m + n as u8);
    } else if n < 0x100 {
        out.push(m + 24);
        out.push(n as u8);
    } else if n < 0x10000 {
        out.push(m + 25);
        out.push(((n / 0x100) % 0x100) as u8);
        out.push((n % 0x100) as u8);
    } else if n < 0x100000000 {
        out.push(m + 26);
        push_be4(out, n);
    } else {
        out.push(m + 27);
        push_be4(out, n / 0x100000000);
        push_be4(out, n % 0x100000000);
    }
    proof {
        let h = head(major, n);
        assert(final(out)@ =~= old(out)@ + h);
    }
}

fn push_be4(out: &mut Vec<u8>, n: u64)
    ensures
        final(out)@ == old(out)@ + be4(n),
{
    out.push(((n / 0x1000000) % 0x100) as u8);
    out.push(((n / 0x10000) % 0x100) as u8);
    out.push(((n / 0x100) % 0x100) as u8);
    out.push((n % 0x100) as u8);
    assert(final(out)@ =~= old(out)@ + be4(n));
}

/// Append a slice.
pub fn push_slice(out: &mut Vec<u8>, b: &[u8])
    ensures
        final(out)@ == old(out)@ + b@,
{
    let mut i: usize = 0;
    let ghost start = out@;
    while i < b.len()
        invariant
            i <= b@.len(),
            out@ == start + b@.subrange(0, i as int),
        decreases b@.len() - i,
    {
        out.push(b[i]);
        i = i + 1;
        assert(out@ =~= start + b@.subrange(0, i as int));
    }
    assert(b@.subrange(0, i as int) =~= b@);
}

/// Append a definite-length byte string.
pub fn push_bytes(out: &mut Vec<u8>, b: &[u8])
    ensures
        final(out)@ == old(out)@ + enc_bytes(b@),
{
    push_head(out, MAJOR_BYTES, b.len() as u64);
    push_slice(out, b);
    assert(out@ =~= old(out)@ + enc_bytes(b@));
}

fn push_magic(out: &mut Vec<u8>)
    ensures
        final(out)@ == old(out)@ + enc_bytes(magic()),
{
    push_head(out, MAJOR_BYTES, 4);
    out.push(0x6e);
    out.push(0x78);
    out.push(0x63);
    out.push(0x68);
    assert(out@ =~= old(out)@ + enc_bytes(magic()));
}

/// Append the chunk header.
fn write_header(out: &mut Vec<u8>, origin: Option<&[u8]>)
    ensures
        final(out)@ == old(out)@ + header_spec(
            match origin {
                Some(o) => Some(o@),
                None => None,
            },
        ),
{
    let ghost start = out@;
    match origin {
        Some(_) => push_head(out, MAJOR_MAP, 3),
        None => push_head(out, MAJOR_MAP, 2),
    }
    push_head(out, MAJOR_UINT, 0);
    push_magic(out);
    push_head(out, MAJOR_UINT, 1);
    push_head(out, MAJOR_UINT, FORMAT_VERSION as u64);
    if let Some(o) = origin {
        push_head(out, MAJOR_UINT, 2);
        push_bytes(out, o);
    }
    proof {
        let fixed = enc_uint(0) + enc_bytes(magic()) + enc_uint(1) + enc_uint(FORMAT_VERSION as u64);
        match origin {
            Some(o) => {
                assert(out@ =~= start + (head(MAJOR_MAP, 3) + fixed + enc_uint(2) + enc_bytes(o@)));
            },
            None => {
                assert(out@ =~= start + (head(MAJOR_MAP, 2) + fixed));
            },
        }
    }
}

/// Append a section heading.
fn write_heading(out: &mut Vec<u8>, stream_id: &[u8])
    ensures
        final(out)@ == old(out)@ + heading_spec(stream_id@),
{
    push_head(out, MAJOR_MAP, 1);
    push_head(out, MAJOR_UINT, 0);
    push_bytes(out, stream_id);
    assert(out@ =~= old(out)@ + heading_spec(stream_id@));
}

/// The body of an event's block.
#[verifier::rlimit(60)]
#[verifier::spinoff_prover]
fn encode_body(event: &PersistedEnvelope) -> (r: Vec<u8>)
    requires
        event.wf(),
    ensures
        r@ == event_body(*event),
{
    let mut out: Vec<u8> = Vec::new();
    let meta = event.metadata();
    match meta {
        Some(_) => push_head(&mut out, MAJOR_MAP, 5),
        None => push_head(&mut out, MAJOR_MAP, 4),
    }
    push_head(&mut out, MAJOR_UINT, 0);
    push_head(&mut out, MAJOR_UINT, event.version().as_u64());
    push_head(&mut out, MAJOR_UINT, 1);
    push_head(&mut out, MAJOR_UINT, event.schema_version() as u64);
    push_head(&mut out, MAJOR_UINT, 2);
    let et = crate::value::str_bytes(event.event_type());
    push_head(&mut out, MAJOR_TEXT, et.len() as u64);
    push_slice(&mut out, et);
    if let Some(m) = meta {
        push_head(&mut out, MAJOR_UINT, 3);
        push_bytes(&mut out, m);
    }
    push_head(&mut out, MAJOR_UINT, 4);
    push_bytes(&mut out, event.payload());
    proof {
        let front = enc_uint(0) + enc_uint(event.spec_version().spec_u64()) + enc_uint(1) + enc_uint(
            event.spec_schema_version().spec_u32() as u64,
        ) + enc_uint(2) + enc_text(event.event_type_view());
        let back = enc_uint(4) + enc_bytes(event.payload_view());
        match event.metadata_view() {
            Some(m) => {
                assert(out@ =~= head(MAJOR_MAP, 5) + front + enc_uint(3) + enc_bytes(m) + back);
            },
            None => {
                assert(out@ =~= head(MAJOR_MAP, 4) + front + back);
            },
        }
    }
    out
}

/// Append one event's block.
fn write_block(out: &mut Vec<u8>, event: &PersistedEnvelope)
    requires
        event.wf(),
    ensures
        final(out)@ == old(out)@ + block_spec(event_body(*event)),
{
    let body = encode_body(event);
    let crc = crc32c(body.as_slice());
    push_head(out, MAJOR_ARRAY, 2);
    push_head(out, MAJOR_UINT, crc as u64);
    push_bytes(out, body.as_slice());
    assert(out@ =~= old(out)@ + block_spec(event_body(*event)));
}

/// Encode the chunk header. `origin` is an optional chunk-level
/// producer/device id, omitted from the map when `None`.
pub fn encode_header(origin: Option<&[u8]>) -> (r: Vec<u8>)
    ensures
        r@ == header_spec(
            match origin {
                Some(o) => Some(o@),
                None => None,
            },
        ),
{
    let mut out: Vec<u8> = Vec::new();
    write_header(&mut out, origin);
    assert(out@ =~= Seq::<u8>::empty() + out@);
    out
}

/// Encode a per-stream section heading.
pub fn encode_section_heading(stream_id: &[u8]) -> (r: Vec<u8>)
    ensures
        r@ == heading_spec(stream_id@),
{
    let mut out: Vec<u8> = Vec::new();
    write_heading(&mut out, stream_id);
    out
}

/// Encode one event as a block `[crc32c(body), body]`; the checksum
/// covers exactly the body bytes.
pub fn encode_block(event: &PersistedEnvelope) -> (r: Vec<u8>)
    requires
        event.wf(),
    ensures
        r@ == block_spec(event_body(*event)),
{
    let mut out: Vec<u8> = Vec::new();
    write_block(&mut out, event);
    out
}

} // verus!

verus! {

// =============================================================================
// Decoding: data items
// =============================================================================

/// Why decoding an item stopped: the input ended mid-item (a torn tail), or
/// the bytes are not what the box expects there.
#[derive(Debug, Clone, Copy, PartialEq, Eq, Structural)]
pub enum DecodeFail {
    EndOfInput,
    Invalid,
}

/// How deep unknown values may nest before the decoder gives up on them.
pub const MAX_SKIP_DEPTH: u64 = 256;

/// `256^k`.
pub open spec fn pow256(k: nat) -> int
    decreases k,
{
    if k == 0 {
        1
    } else {
        256 * pow256((k - 1) as nat)
    }
}

/// The big-endian value of `s[p .. p + k]`.
pub open spec fn be_value(s: Seq<u8>, p: int, k: nat) -> int
    decreases k,
{
    if k == 0 {
        0
    } else {
        be_value(s, p, (k - 1) as nat) * 256 + s[p + k - 1]
    }
}

/// How many argument bytes follow a head byte with additional info `info`
/// (for `24 <= info < 28`).
pub open spec fn arg_width(info: int) -> nat {
    if info == 24 {
        1
    } else if info == 25 {
        2
    } else if info == 26 {
        4
    } else {
        8
    }
}

/// The argument of the head whose first byte is at `p`, and where the
/// head ends. Additional info 28..=31 is not a definite argument.
pub open spec fn arg_spec(s: Seq<u8>, p: int) -> Result<(u64, int), DecodeFail> {
    let info = (s[p] % 32) as int;
    if info < 24 {
        Ok((info as u64, p + 1))
    } else if info < 28 {
        let k = arg_width(info);
        if p + 1 + k > s.len() {
            Err(DecodeFail::EndOfInput)
        } else {
            Ok((be_value(s, p + 1, k) as u64, p + 1 + k))
        }
    } else {
        Err(DecodeFail::Invalid)
    }
}

/// The major type of the byte at `p`.
pub open spec fn major_at(s: Seq<u8>, p: int) -> int {
    (s[p] / 32) as int
}

/// A definite item of major type `major` at `p`: its argument and where
/// its head ends.
pub open spec fn typed_head_spec(s: Seq<u8>, p: int, major: int) -> Result<(u64, int), DecodeFail> {
    if p < 0 || p >= s.len() {
        Err(DecodeFail::EndOfInput)
    } else if major_at(s, p) != major {
        Err(DecodeFail::Invalid)
    } else {
        arg_spec(s, p)
    }
}

/// An unsigned integer at `p`.
pub open spec fn uint_spec(s: Seq<u8>, p: int) -> Result<(u64, int), DecodeFail> {
    typed_head_spec(s, p, MAJOR_UINT as int)
}

/// An unsigned integer that fits `u32` at `p`.
pub open spec fn u32_spec(s: Seq<u8>, p: int) -> Result<(u64, int), DecodeFail> {
    match uint_spec(s, p) {
        Ok((n, q)) => if n <= u32::MAX {
            Ok((n, q))
        } else {
            Err(DecodeFail::Invalid)
        },
        Err(e) => Err(e),
    }
}

/// A definite byte or text string at `p`: where its content starts and
/// ends. Text content must be UTF-8.
pub open spec fn string_spec(s: Seq<u8>, p: int, major: int) -> Result<(int, int), DecodeFail> {
    match typed_head_spec(s, p, major) {
        Ok((n, q)) => if q + n > s.len() {
            Err(DecodeFail::EndOfInput)
        } else if major == MAJOR_TEXT && !vstd::utf8::valid_utf8(s.subrange(q, q + n)) {
            Err(DecodeFail::Invalid)
        } else {
            Ok((q, q + n))
        },
        Err(e) => Err(e),
    }
}

/// Skip one data item of any kind at `p`, nesting at most `d` deep.
pub open spec fn skip_spec(s: Seq<u8>, p: int, d: nat) -> Result<int, DecodeFail>
    decreases d, s.len() - p, 0int,
{
    if p < 0 || p >= s.len() {
        Err(DecodeFail::EndOfInput)
    } else if d == 0 {
        Err(DecodeFail::Invalid)
    } else {
        let major = major_at(s, p);
        let info = (s[p] % 32) as int;
        if major == MAJOR_UINT || major == MAJOR_NINT {
            match arg_spec(s, p) {
                Ok((_, q)) => Ok(q),
                Err(e) => Err(e),
            }
        } else if major == MAJOR_BYTES || major == MAJOR_TEXT {
            if info == 31 {
                chunks_spec(s, p + 1, major, (d - 1) as nat)
            } else {
                match string_spec(s, p, major) {
                    Ok((_, q)) => Ok(q),
                    Err(e) => Err(e),
                }
            }
        } else if major == MAJOR_ARRAY || major == MAJOR_MAP {
            let per = if major == MAJOR_MAP {
                2nat
            } else {
                1nat
            };
            if info == 31 {
                until_break_spec(s, p + 1, per, (d - 1) as nat)
            } else {
                match arg_spec(s, p) {
                    Ok((n, q)) => items_spec(s, q, (n * per) as nat, (d - 1) as nat),
                    Err(e) => Err(e),
                }
            }
        } else if major == MAJOR_TAG {
            match arg_spec(s, p) {
                Ok((_, q)) => if q <= p {
                    Err(DecodeFail::Invalid)
                } else {
                    skip_spec(s, q, (d - 1) as nat)
                },
                Err(e) => Err(e),
            }
        } else {
            if info < 24 {
                Ok(p + 1)
            } else if info < 28 {
                match arg_spec(s, p) {
                    Ok((_, q)) => Ok(q),
                    Err(e) => Err(e),
                }
            } else {
                Err(DecodeFail::Invalid)
            }
        }
    }
}

/// Skip `n` items from `p`.
pub open spec fn items_spec(s: Seq<u8>, p: int, n: nat, d: nat) -> Result<int, DecodeFail>
    decreases d, s.len() - p, 1int,
{
    if n == 0 {
        Ok(p)
    } else {
        match skip_spec(s, p, d) {
            Ok(q) => if q <= p || q > s.len() {
                Err(DecodeFail::Invalid)
            } else {
                items_spec(s, q, (n - 1) as nat, d)
            },
            Err(e) => Err(e),
        }
    }
}

/// Skip groups of `per` items from `p` up to and including a break byte.
pub open spec fn until_break_spec(s: Seq<u8>, p: int, per: nat, d: nat) -> Result<int, DecodeFail>
    decreases d, s.len() - p, 2int,
{
    if p < 0 || p >= s.len() {
        Err(DecodeFail::EndOfInput)
    } else if s[p] == 0xff {
        Ok(p + 1)
    } else {
        match items_spec(s, p, per, d) {
            Ok(q) => if q <= p || q > s.len() {
                Err(DecodeFail::Invalid)
            } else {
                until_break_spec(s, q, per, d)
            },
            Err(e) => Err(e),
        }
    }
}

/// Skip the definite chunks of an indefinite string up to its break byte.
pub open spec fn chunks_spec(s: Seq<u8>, p: int, major: int, d: nat) -> Result<int, DecodeFail>
    decreases d, s.len() - p, 0int,
{
    if p < 0 || p >= s.len() {
        Err(DecodeFail::EndOfInput)
    } else if s[p] == 0xff {
        Ok(p + 1)
    } else if (s[p] % 32) as int == 31 {
        Err(DecodeFail::Invalid)
    } else {
        match string_spec(s, p, major) {
            Ok((_, q)) => if q <= p {
                Err(DecodeFail::Invalid)
            } else {
                chunks_spec(s, q, major, d)
            },
            Err(e) => Err(e),
        }
    }
}

/// A skipped item ends after it starts and within the input.
proof fn lemma_skip_bound(s: Seq<u8>, p: int, d: nat)
    ensures
        skip_spec(s, p, d) matches Ok(q) ==> p < q <= s.len(),
    decreases d, s.len() - p, 0int,
{
    if 0 <= p < s.len() && d > 0 {
        let major = major_at(s, p);
        let info = (s[p] % 32) as int;
        if major == MAJOR_BYTES || major == MAJOR_TEXT {
            if info == 31 {
                lemma_chunks_bound(s, p + 1, major, (d - 1) as nat);
            }
        } else if major == MAJOR_ARRAY || major == MAJOR_MAP {
            let per = if major == MAJOR_MAP {
                2nat
            } else {
                1nat
            };
            if info == 31 {
                lemma_until_bound(s, p + 1, per, (d - 1) as nat);
            } else {
                match arg_spec(s, p) {
                    Ok((n, q)) => lemma_items_bound(s, q, (n * per) as nat, (d - 1) as nat),
                    Err(_) => {},
                }
            }
        } else if major == MAJOR_TAG {
            match arg_spec(s, p) {
                Ok((_, q)) => if q > p {
                    lemma_skip_bound(s, q, (d - 1) as nat);
                },
                Err(_) => {},
            }
        }
    }
}

/// Skipping a run of items from an in-bounds position ends within the input.
proof fn lemma_items_bound(s: Seq<u8>, p: int, n: nat, d: nat)
    ensures
        0 <= p <= s.len() ==> (items_spec(s, p, n, d) matches Ok(q) ==> p <= q <= s.len()),
    decreases d, s.len() - p, 1int,
{
    if n > 0 && 0 <= p <= s.len() {
        lemma_skip_bound(s, p, d);
        match skip_spec(s, p, d) {
            Ok(q) => if q > p && q <= s.len() {
                lemma_items_bound(s, q, (n - 1) as nat, d);
            },
            Err(_) => {},
        }
    }
}

/// Skipping up to a break byte ends after it starts and within the input.
proof fn lemma_until_bound(s: Seq<u8>, p: int, per: nat, d: nat)
    ensures
        until_break_spec(s, p, per, d) matches Ok(q) ==> p < q <= s.len(),
    decreases d, s.len() - p, 2int,
{
    if 0 <= p < s.len() && s[p] != 0xff {
        lemma_items_bound(s, p, per, d);
        match items_spec(s, p, per, d) {
            Ok(q) => if q > p && q <= s.len() {
                lemma_until_bound(s, q, per, d);
            },
            Err(_) => {},
        }
    }
}

/// Skipping string chunks ends after it starts and within the input.
proof fn lemma_chunks_bound(s: Seq<u8>, p: int, major: int, d: nat)
    ensures
        chunks_spec(s, p, major, d) matches Ok(q) ==> p < q <= s.len(),
    decreases d, s.len() - p, 0int,
{
    if 0 <= p < s.len() && s[p] != 0xff && (s[p] % 32) as int != 31 {
        match string_spec(s, p, major) {
            Ok((_, q)) => if q > p {
                lemma_chunks_bound(s, q, major, d);
            },
            Err(_) => {},
        }
    }
}

proof fn lemma_be_bound(s: Seq<u8>, p: int, k: nat)
    requires
        0 <= p,
        p + k <= s.len(),
    ensures
        0 <= be_value(s, p, k) < pow256(k),
    decreases k,
{
    if k > 0 {
        lemma_be_bound(s, p, (k - 1) as nat);
        let prev = be_value(s, p, (k - 1) as nat);
        let b = s[p + k - 1] as int;
        assert(prev * 256 + b < pow256(k)) by (nonlinear_arith)
            requires
                0 <= prev < pow256((k - 1) as nat),
                0 <= b < 256,
                pow256(k) == 256 * pow256((k - 1) as nat),
        ;
        assert(0 <= prev * 256 + b) by (nonlinear_arith)
            requires
                0 <= prev,
                0 <= b,
        ;
    }
}

/// Read `k <= 8` big-endian bytes at `p`.
fn read_be(s: &[u8], p: usize, k: usize) -> (r: u64)
    requires
        k <= 8,
        p + k <= s@.len(),
    ensures
        r == be_value(s@, p as int, k as nat),
{
    let mut v: u64 = 0;
    let mut j: usize = 0;
    let len = s.len();
    proof {
        reveal_with_fuel(pow256, 9);
    }
    while j < k
        invariant
            len == s@.len(),
            j <= k <= 8,
            p + k <= s@.len(),
            v == be_value(s@, p as int, j as nat),
            pow256(8) == 0x1_0000_0000_0000_0000,
        decreases k - j,
    {
        proof {
            lemma_be_bound(s@, p as int, j as nat);
            lemma_pow256_mono(j as nat, 7);
            assert(v * 256 + 255 <= u64::MAX) by (nonlinear_arith)
                requires
                    v < pow256(j as nat),
                    pow256(j as nat) <= pow256(7),
                    pow256(8) == 256 * pow256(7),
                    pow256(8) == 0x1_0000_0000_0000_0000,
            ;
        }
        let b = s[p + j] as u64;
        assert(b < 256);
        assert(v * 256 + b <= u64::MAX);
        v = v * 256 + b;
        j = j + 1;
    }
    v
}

proof fn lemma_pow256_mono(a: nat, b: nat)
    requires
        a <= b,
    ensures
        pow256(a) <= pow256(b),
        pow256(a) >= 1,
    decreases b,
{
    if a < b {
        lemma_pow256_mono(a, (b - 1) as nat);
    } else {
        lemma_pow256_pos(a);
    }
}

proof fn lemma_pow256_pos(a: nat)
    ensures
        pow256(a) >= 1,
    decreases a,
{
    if a > 0 {
        lemma_pow256_pos((a - 1) as nat);
    }
}

/// The argument of the head at `p` (`p` in bounds).
fn read_arg(s: &[u8], p: usize) -> (r: Result<(u64, usize), DecodeFail>)
    requires
        p < s@.len(),
    ensures
        match arg_spec(s@, p as int) {
            Ok((n, q)) => r == Ok::<(u64, usize), DecodeFail>((n, q as usize)),
            Err(e) => r == Err::<(u64, usize), DecodeFail>(e),
        },
{
    let info = s[p] % 32;
    if info < 24 {
        return Ok((info as u64, p + 1));
    }
    if info >= 28 {
        return Err(DecodeFail::Invalid);
    }
    let k: usize = if info == 24 {
        1
    } else if info == 25 {
        2
    } else if info == 26 {
        4
    } else {
        8
    };
    if k > s.len() - p - 1 {
        return Err(DecodeFail::EndOfInput);
    }
    let v = read_be(s, p + 1, k);
    proof {
        lemma_be_bound(s@, p + 1, k as nat);
    }
    Ok((v, p + 1 + k))
}

/// A definite item of major type `major` at `p`.
fn read_typed_head(s: &[u8], p: usize, major: u8) -> (r: Result<(u64, usize), DecodeFail>)
    ensures
        match typed_head_spec(s@, p as int, major as int) {
            Ok((n, q)) => r == Ok::<(u64, usize), DecodeFail>((n, q as usize)),
            Err(e) => r == Err::<(u64, usize), DecodeFail>(e),
        },
{
    if p >= s.len() {
        return Err(DecodeFail::EndOfInput);
    }
    if s[p] / 32 != major {
        return Err(DecodeFail::Invalid);
    }
    read_arg(s, p)
}

/// An unsigned integer at `p`.
fn read_uint(s: &[u8], p: usize) -> (r: Result<(u64, usize), DecodeFail>)
    ensures
        match uint_spec(s@, p as int) {
            Ok((n, q)) => r == Ok::<(u64, usize), DecodeFail>((n, q as usize)),
            Err(e) => r == Err::<(u64, usize), DecodeFail>(e),
        },
{
    read_typed_head(s, p, MAJOR_UINT)
}

/// An unsigned integer that fits `u32` at `p`.
fn read_u32(s: &[u8], p: usize) -> (r: Result<(u64, usize), DecodeFail>)
    ensures
        match u32_spec(s@, p as int) {
            Ok((n, q)) => r == Ok::<(u64, usize), DecodeFail>((n, q as usize)),
            Err(e) => r == Err::<(u64, usize), DecodeFail>(e),
        },
{
    let (n, q) = read_uint(s, p)?;
    if n > 0xffff_ffff {
        return Err(DecodeFail::Invalid);
    }
    Ok((n, q))
}

/// A definite byte or text string at `p`.
fn read_string(s: &[u8], p: usize, major: u8) -> (r: Result<(usize, usize), DecodeFail>)
    ensures
        match string_spec(s@, p as int, major as int) {
            Ok((a, b)) => r == Ok::<(usize, usize), DecodeFail>((a as usize, b as usize)),
            Err(e) => r == Err::<(usize, usize), DecodeFail>(e),
        },
{
    let (n, q) = read_typed_head(s, p, major)?;
    if n > (s.len() - q) as u64 {
        return Err(DecodeFail::EndOfInput);
    }
    let end = q + n as usize;
    if major == MAJOR_TEXT {
        let content = crate::value::sub_slice(s, q, end);
        if crate::value::str_from_utf8(content).is_none() {
            return Err(DecodeFail::Invalid);
        }
    }
    Ok((q, end))
}

} // verus!

verus! {

/// Skip one data item of any kind at `p`.
fn skip_item(s: &[u8], p: usize, d: u64) -> (r: Result<usize, DecodeFail>)
    ensures
        match skip_spec(s@, p as int, d as nat) {
            Ok(q) => r == Ok::<usize, DecodeFail>(q as usize),
            Err(e) => r == Err::<usize, DecodeFail>(e),
        },
    decreases d, 0int,
{
    if p >= s.len() {
        return Err(DecodeFail::EndOfInput);
    }
    if d == 0 {
        return Err(DecodeFail::Invalid);
    }
    let major = s[p] / 32;
    let info = s[p] % 32;
    if major == MAJOR_UINT || major == MAJOR_NINT {
        let (_, q) = read_arg(s, p)?;
        Ok(q)
    } else if major == MAJOR_BYTES || major == MAJOR_TEXT {
        if info == 31 {
            skip_chunks(s, p + 1, major, d - 1)
        } else {
            let (_, q) = read_string(s, p, major)?;
            Ok(q)
        }
    } else if major == MAJOR_ARRAY || major == MAJOR_MAP {
        let per: u64 = if major == MAJOR_MAP {
            2
        } else {
            1
        };
        if info == 31 {
            skip_until_break(s, p + 1, per, d - 1)
        } else {
            let (n, q) = read_arg(s, p)?;
            skip_items(s, q, n, per, d - 1)
        }
    } else if major == MAJOR_TAG {
        let (_, q) = read_arg(s, p)?;
        if q <= p {
            return Err(DecodeFail::Invalid);
        }
        skip_item(s, q, d - 1)
    } else {
        if info < 24 {
            Ok(p + 1)
        } else if info < 28 {
            let (_, q) = read_arg(s, p)?;
            Ok(q)
        } else {
            Err(DecodeFail::Invalid)
        }
    }
}

/// Skip `n` groups of `per` items from `p`.
fn skip_items(s: &[u8], p: usize, n: u64, per: u64, d: u64) -> (r: Result<usize, DecodeFail>)
    requires
        per == 1 || per == 2,
        p <= s@.len(),
    ensures
        match items_spec(s@, p as int, (n * per) as nat, d as nat) {
            Ok(q) => r == Ok::<usize, DecodeFail>(q as usize),
            Err(e) => r == Err::<usize, DecodeFail>(e),
        },
    decreases d, 1int,
{
    let mut pos = p;
    let mut i: u64 = 0;
    let ghost total = (n * per) as nat;
    while i < n
        invariant
            per == 1 || per == 2,
            i <= n,
            pos <= s@.len(),
            total == (n * per) as nat,
            items_spec(s@, p as int, total, d as nat) == items_spec(
                s@,
                pos as int,
                ((n - i) * per) as nat,
                d as nat,
            ),
        decreases n - i,
    {
        let mut j: u64 = 0;
        while j < per
            invariant
                per == 1 || per == 2,
                i < n,
                j <= per,
                pos <= s@.len(),
                total == (n * per) as nat,
                items_spec(s@, p as int, total, d as nat) == items_spec(
                    s@,
                    pos as int,
                    ((n - i) * per - j) as nat,
                    d as nat,
                ),
            decreases per - j,
        {
            let ghost m = ((n - i) * per - j) as nat;
            proof {
                assert((n - i) * per - j > 0) by (nonlinear_arith)
                    requires
                        i < n,
                        j < per,
                        per >= 1,
                ;
                lemma_skip_bound(s@, pos as int, d as nat);
            }
            let len = s.len();
            let q = match skip_item(s, pos, d) {
                Ok(q) => q,
                Err(e) => {
                    return Err(e);
                },
            };
            proof {
                assert(s@.len() == len);
                assert(skip_spec(s@, pos as int, d as nat) == Ok::<int, DecodeFail>(q as int));
                assert(m > 0);
                assert(items_spec(s@, pos as int, m, d as nat) == items_spec(
                    s@,
                    q as int,
                    (m - 1) as nat,
                    d as nat,
                ));
            }
            pos = q;
            j = j + 1;
        }
        proof {
            assert((n - i) * per - per == (n - (i + 1)) * per) by (nonlinear_arith);
        }
        i = i + 1;
    }
    Ok(pos)
}

/// Skip groups of `per` items from `p` through the break byte.
fn skip_until_break(s: &[u8], p: usize, per: u64, d: u64) -> (r: Result<usize, DecodeFail>)
    requires
        per == 1 || per == 2,
        p <= s@.len(),
    ensures
        match until_break_spec(s@, p as int, per as nat, d as nat) {
            Ok(q) => r == Ok::<usize, DecodeFail>(q as usize),
            Err(e) => r == Err::<usize, DecodeFail>(e),
        },
    decreases d, 2int,
{
    let mut pos = p;
    loop
        invariant
            per == 1 || per == 2,
            pos <= s@.len(),
            until_break_spec(s@, p as int, per as nat, d as nat) == until_break_spec(
                s@,
                pos as int,
                per as nat,
                d as nat,
            ),
        decreases s@.len() - pos,
    {
        if pos >= s.len() {
            return Err(DecodeFail::EndOfInput);
        }
        if s[pos] == 0xff {
            return Ok(pos + 1);
        }
        proof {
            lemma_items_bound(s@, pos as int, per as nat, d as nat);
            assert(per * 1 == per);
        }
        let q = skip_items(s, pos, 1, per, d)?;
        if q <= pos {
            return Err(DecodeFail::Invalid);
        }
        pos = q;
    }
}

/// Skip the chunks of an indefinite string through its break byte.
fn skip_chunks(s: &[u8], p: usize, major: u8, d: u64) -> (r: Result<usize, DecodeFail>)
    requires
        p <= s@.len(),
    ensures
        match chunks_spec(s@, p as int, major as int, d as nat) {
            Ok(q) => r == Ok::<usize, DecodeFail>(q as usize),
            Err(e) => r == Err::<usize, DecodeFail>(e),
        },
    decreases d, 1int,
{
    let mut pos = p;
    loop
        invariant
            pos <= s@.len(),
            chunks_spec(s@, p as int, major as int, d as nat) == chunks_spec(
                s@,
                pos as int,
                major as int,
                d as nat,
            ),
        decreases s@.len() - pos,
    {
        if pos >= s.len() {
            return Err(DecodeFail::EndOfInput);
        }
        if s[pos] == 0xff {
            return Ok(pos + 1);
        }
        if s[pos] % 32 == 31 {
            return Err(DecodeFail::Invalid);
        }
        let (_, q) = read_string(s, pos, major)?;
        if q <= pos {
            return Err(DecodeFail::Invalid);
        }
        pos = q;
    }
}

} // verus!

verus! {

// =============================================================================
// Decoding: record maps
// =============================================================================

/// A value read for a known key of a record map.
#[derive(Debug, Clone, Copy, PartialEq, Eq, Structural)]
pub enum FieldVal {
    /// An unsigned integer.
    Int(u64),
    /// A string's content, as a range of the input.
    Span(usize, usize),
    /// An explicit `null`.
    Null,
}

/// What the value under a key must be.
#[derive(Debug, Clone, Copy, PartialEq, Eq, Structural)]
pub enum FieldKind {
    Uint,
    U32,
    Bytes,
    Text,
    OptBytes,
    Skip,
}

/// The three record maps of the box.
#[derive(Debug, Clone, Copy, PartialEq, Eq, Structural)]
pub enum Record {
    /// `{0: magic, 1: format_version, 2: origin?}`
    Header,
    /// `{0: stream_id}`
    Heading,
    /// `{0: version, 1: schema, 2: event_type, 3: metadata?, 4: payload}`
    Body,
}

/// How many keys a record knows (keys `0 .. FIELD_SLOTS`).
pub const FIELD_SLOTS: usize = 5;

/// The kind of the value under `key` in `rec`; unknown keys are skipped.
pub open spec fn field_kind(rec: Record, key: u64) -> FieldKind {
    match rec {
        Record::Header => if key == 0 {
            FieldKind::Bytes
        } else if key == 1 {
            FieldKind::U32
        } else if key == 2 {
            FieldKind::OptBytes
        } else {
            FieldKind::Skip
        },
        Record::Heading => if key == 0 {
            FieldKind::Bytes
        } else {
            FieldKind::Skip
        },
        Record::Body => if key == 0 {
            FieldKind::Uint
        } else if key == 1 {
            FieldKind::U32
        } else if key == 2 {
            FieldKind::Text
        } else if key == 3 {
            FieldKind::OptBytes
        } else if key == 4 {
            FieldKind::Bytes
        } else {
            FieldKind::Skip
        },
    }
}

/// A string of major type `major` at `p`, as a field.
pub open spec fn span_field(s: Seq<u8>, p: int, major: int) -> Result<(Option<FieldVal>, int), DecodeFail> {
    match string_spec(s, p, major) {
        Ok((a, b)) => Ok((Some(FieldVal::Span(a as usize, b as usize)), b)),
        Err(e) => Err(e),
    }
}

/// An integer head at `p`, as a field.
pub open spec fn int_field(r: Result<(u64, int), DecodeFail>) -> Result<(Option<FieldVal>, int), DecodeFail> {
    match r {
        Ok((n, q)) => Ok((Some(FieldVal::Int(n)), q)),
        Err(e) => Err(e),
    }
}

/// The value of kind `k` at `p` and where it ends; a skipped value gives
/// `None`.
pub open spec fn value_spec(s: Seq<u8>, p: int, k: FieldKind) -> Result<(Option<FieldVal>, int), DecodeFail> {
    match k {
        FieldKind::Uint => int_field(uint_spec(s, p)),
        FieldKind::U32 => int_field(u32_spec(s, p)),
        FieldKind::Bytes => span_field(s, p, MAJOR_BYTES as int),
        FieldKind::Text => span_field(s, p, MAJOR_TEXT as int),
        FieldKind::OptBytes => if 0 <= p < s.len() && s[p] == 0xf6 {
            Ok((Some(FieldVal::Null), p + 1))
        } else {
            span_field(s, p, MAJOR_BYTES as int)
        },
        FieldKind::Skip => match skip_spec(s, p, MAX_SKIP_DEPTH as nat) {
            Ok(q) => Ok((None, q)),
            Err(e) => Err(e),
        },
    }
}

/// No field seen yet.
pub open spec fn no_fields() -> Seq<Option<FieldVal>> {
    Seq::new(FIELD_SLOTS as nat, |i: int| None::<FieldVal>)
}

/// One `key: value` entry at `p`, folded into `f` (a later entry for the
/// same key replaces an earlier one).
#[verifier::opaque]
pub open spec fn entry_spec(s: Seq<u8>, p: int, rec: Record, f: Seq<Option<FieldVal>>) -> Result<
    (Seq<Option<FieldVal>>, int),
    DecodeFail,
> {
    match u32_spec(s, p) {
        Ok((key, q)) => match value_spec(s, q, field_kind(rec, key)) {
            Ok((v, r)) => Ok(
                (
                    match v {
                        Some(x) => f.update(key as int, Some(x)),
                        None => f,
                    },
                    r,
                ),
            ),
            Err(e) => Err(e),
        },
        Err(e) => Err(e),
    }
}

/// `n` entries from `p`.
pub open spec fn entries_spec(s: Seq<u8>, p: int, n: nat, rec: Record, f: Seq<Option<FieldVal>>) -> Result<
    (Seq<Option<FieldVal>>, int),
    DecodeFail,
>
    decreases n,
{
    if n == 0 {
        Ok((f, p))
    } else {
        match entry_spec(s, p, rec, f) {
            Ok((g, q)) => entries_spec(s, q, (n - 1) as nat, rec, g),
            Err(e) => Err(e),
        }
    }
}

/// Entries from `p` through a break byte.
pub open spec fn entries_break_spec(s: Seq<u8>, p: int, rec: Record, f: Seq<Option<FieldVal>>) -> Result<
    (Seq<Option<FieldVal>>, int),
    DecodeFail,
>
    decreases s.len() - p,
{
    if p < 0 || p >= s.len() {
        Err(DecodeFail::EndOfInput)
    } else if s[p] == 0xff {
        Ok((f, p + 1))
    } else {
        match entry_spec(s, p, rec, f) {
            Ok((g, q)) => if q <= p || q > s.len() {
                Err(DecodeFail::Invalid)
            } else {
                entries_break_spec(s, q, rec, g)
            },
            Err(e) => Err(e),
        }
    }
}

/// The record map `rec` at `p`, definite or indefinite: the fields it set
/// and where it ends.
pub open spec fn map_spec(s: Seq<u8>, p: int, rec: Record) -> Result<
    (Seq<Option<FieldVal>>, int),
    DecodeFail,
> {
    if p < 0 || p >= s.len() {
        Err(DecodeFail::EndOfInput)
    } else if major_at(s, p) != MAJOR_MAP as int {
        Err(DecodeFail::Invalid)
    } else if (s[p] % 32) as int == 31 {
        entries_break_spec(s, p + 1, rec, no_fields())
    } else {
        match arg_spec(s, p) {
            Ok((n, q)) => entries_spec(s, q, n as nat, rec, no_fields()),
            Err(e) => Err(e),
        }
    }
}

proof fn lemma_value_bound(s: Seq<u8>, p: int, k: FieldKind)
    requires
        s.len() <= usize::MAX,
    ensures
        value_spec(s, p, k) matches Ok((v, q)) ==> p < q <= s.len() && (v matches Some(
            FieldVal::Span(a, b),
        ) ==> p < a <= b <= q),
{
    lemma_skip_bound(s, p, MAX_SKIP_DEPTH as nat);
    match k {
        FieldKind::Bytes => lemma_span_bound(s, p, MAJOR_BYTES as int),
        FieldKind::Text => lemma_span_bound(s, p, MAJOR_TEXT as int),
        FieldKind::OptBytes => lemma_span_bound(s, p, MAJOR_BYTES as int),
        _ => {},
    }
}

proof fn lemma_span_bound(s: Seq<u8>, p: int, major: int)
    requires
        s.len() <= usize::MAX,
    ensures
        string_spec(s, p, major) matches Ok((a, b)) ==> p < a <= b <= s.len() && (a as usize)
            as int == a && (b as usize) as int == b,
{
}

/// Read the value of kind `k` at `p`.
fn read_value(s: &[u8], p: usize, k: FieldKind) -> (r: Result<(Option<FieldVal>, usize), DecodeFail>)
    ensures
        match value_spec(s@, p as int, k) {
            Ok((v, q)) => r == Ok::<(Option<FieldVal>, usize), DecodeFail>((v, q as usize)),
            Err(e) => r == Err::<(Option<FieldVal>, usize), DecodeFail>(e),
        },
{
    match k {
        FieldKind::Uint => {
            let (n, q) = read_uint(s, p)?;
            Ok((Some(FieldVal::Int(n)), q))
        },
        FieldKind::U32 => {
            let (n, q) = read_u32(s, p)?;
            Ok((Some(FieldVal::Int(n)), q))
        },
        FieldKind::Bytes => {
            let (a, b) = read_string(s, p, MAJOR_BYTES)?;
            Ok((Some(FieldVal::Span(a, b)), b))
        },
        FieldKind::Text => {
            let (a, b) = read_string(s, p, MAJOR_TEXT)?;
            Ok((Some(FieldVal::Span(a, b)), b))
        },
        FieldKind::OptBytes => {
            if p < s.len() && s[p] == 0xf6 {
                Ok((Some(FieldVal::Null), p + 1))
            } else {
                let (a, b) = read_string(s, p, MAJOR_BYTES)?;
                Ok((Some(FieldVal::Span(a, b)), b))
            }
        },
        FieldKind::Skip => {
            let q = skip_item(s, p, MAX_SKIP_DEPTH)?;
            Ok((None, q))
        },
    }
}

/// The kind of the value under `key` in `rec`.
fn kind_of(rec: Record, key: u64) -> (k: FieldKind)
    ensures
        k == field_kind(rec, key),
{
    match rec {
        Record::Header => if key == 0 {
            FieldKind::Bytes
        } else if key == 1 {
            FieldKind::U32
        } else if key == 2 {
            FieldKind::OptBytes
        } else {
            FieldKind::Skip
        },
        Record::Heading => if key == 0 {
            FieldKind::Bytes
        } else {
            FieldKind::Skip
        },
        Record::Body => if key == 0 {
            FieldKind::Uint
        } else if key == 1 {
            FieldKind::U32
        } else if key == 2 {
            FieldKind::Text
        } else if key == 3 {
            FieldKind::OptBytes
        } else if key == 4 {
            FieldKind::Bytes
        } else {
            FieldKind::Skip
        },
    }
}

/// Read one entry at `p` into `fields`.
fn read_entry(s: &[u8], p: usize, rec: Record, fields: &mut Vec<Option<FieldVal>>) -> (r: Result<
    usize,
    DecodeFail,
>)
    requires
        old(fields)@.len() == FIELD_SLOTS,
    ensures
        final(fields)@.len() == FIELD_SLOTS,
        match entry_spec(s@, p as int, rec, old(fields)@) {
            Ok((g, q)) => r == Ok::<usize, DecodeFail>(q as usize) && final(fields)@ == g && p
                < q <= s@.len(),
            Err(e) => r == Err::<usize, DecodeFail>(e),
        },
{
    let len = s.len();
    proof {
        reveal(entry_spec);
    }
    let (key, q) = read_u32(s, p)?;
    proof {
        assert(s@.len() == len);
        lemma_value_bound(s@, q as int, field_kind(rec, key));
    }
    let k = kind_of(rec, key);
    let (v, end) = read_value(s, q, k)?;
    if let Some(x) = v {
        fields.set(key as usize, Some(x));
    }
    Ok(end)
}

/// Read the record map `rec` at `p`.
fn read_map(s: &[u8], p: usize, rec: Record) -> (r: Result<(Vec<Option<FieldVal>>, usize), DecodeFail>)
    ensures
        match map_spec(s@, p as int, rec) {
            Ok((f, q)) => r matches Ok((g, q2)) && g@ == f && q2 == q && p < q <= s@.len(),
            Err(e) => r matches Err(e2) && e2 == e,
        },
{
    let len = s.len();
    if p >= len {
        return Err(DecodeFail::EndOfInput);
    }
    if s[p] / 32 != MAJOR_MAP {
        return Err(DecodeFail::Invalid);
    }
    let mut fields: Vec<Option<FieldVal>> = Vec::new();
    let mut i: usize = 0;
    while i < FIELD_SLOTS
        invariant
            i <= FIELD_SLOTS,
            fields@ == no_fields().subrange(0, i as int),
        decreases FIELD_SLOTS - i,
    {
        fields.push(None);
        i = i + 1;
        assert(fields@ =~= no_fields().subrange(0, i as int));
    }
    assert(fields@ =~= no_fields());
    if s[p] % 32 == 31 {
        let mut pos = p + 1;
        loop
            invariant
                len == s@.len(),
                p < pos <= s@.len(),
                fields@.len() == FIELD_SLOTS,
                map_spec(s@, p as int, rec) == entries_break_spec(s@, pos as int, rec, fields@),
            decreases s@.len() - pos,
        {
            if pos >= len {
                return Err(DecodeFail::EndOfInput);
            }
            if s[pos] == 0xff {
                return Ok((fields, pos + 1));
            }
            let ghost before = fields@;
            let q = read_entry(s, pos, rec, &mut fields)?;
            proof {
                assert(entries_break_spec(s@, pos as int, rec, before) == entries_break_spec(
                    s@,
                    q as int,
                    rec,
                    fields@,
                ));
            }
            pos = q;
        }
    } else {
        let (n, q) = read_arg(s, p)?;
        let mut pos = q;
        let mut j: u64 = 0;
        while j < n
            invariant
                len == s@.len(),
                j <= n,
                p < pos <= s@.len(),
                fields@.len() == FIELD_SLOTS,
                map_spec(s@, p as int, rec) == entries_spec(
                    s@,
                    pos as int,
                    (n - j) as nat,
                    rec,
                    fields@,
                ),
            decreases n - j,
        {
            let ghost before = fields@;
            let q2 = read_entry(s, pos, rec, &mut fields)?;
            proof {
                assert(entries_spec(s@, pos as int, (n - j) as nat, rec, before) == entries_spec(
                    s@,
                    q2 as int,
                    (n - j - 1) as nat,
                    rec,
                    fields@,
                ));
            }
            pos = q2;
            j = j + 1;
        }
        Ok((fields, pos))
    }
}

} // verus!

verus! {

// =============================================================================
// Decoding: header, heading, block body
// =============================================================================

/// A box-layer decode failure.
#[derive(Debug, Clone, Copy)]
pub enum ChunkError {
    /// The chunk framing is unreadable; the text is a hint for debugging.
    /// Distinct from a per-block checksum failure, which is a non-error
    /// [`ImportBlock::Corrupt`].
    Malformed(&'static str),
}

/// The decoded chunk header.
#[derive(Debug, Clone)]
pub struct ChunkHeader {
    /// The chunk format version (always `1` for a chunk this build accepts).
    pub format_version: u32,
    /// The chunk-level producer/device id, if the encoder recorded one.
    pub origin: Option<Vec<u8>>,
}

/// The bytes of a string field (`None` for a missing field or `null`).
pub open spec fn span_bytes(s: Seq<u8>, v: Option<FieldVal>) -> Option<Seq<u8>> {
    match v {
        Some(FieldVal::Span(a, b)) => Some(s.subrange(a as int, b as int)),
        _ => None,
    }
}

/// The view of an optional byte vector.
pub open spec fn opt_bytes_view(v: Option<Vec<u8>>) -> Option<Seq<u8>> {
    match v {
        Some(b) => Some(b@),
        None => None,
    }
}

/// The view of an optional byte slice.
pub open spec fn opt_slice_view(v: Option<&[u8]>) -> Option<Seq<u8>> {
    match v {
        Some(b) => Some(b@),
        None => None,
    }
}

/// What `validate_header` checks, in order.
pub open spec fn header_check(magic_bytes: Seq<u8>, format_version: u32) -> Result<(), &'static str> {
    if magic_bytes != magic() {
        Err("bad magic")
    } else if format_version != FORMAT_VERSION {
        Err("unknown format version")
    } else {
        Ok(())
    }
}

/// The header at the start of `s`: format version, origin, and where the
/// header ends; or the hint of why it is refused.
#[verifier::opaque]
pub open spec fn header_dec(s: Seq<u8>) -> Result<(u32, Option<Seq<u8>>, int), &'static str> {
    match map_spec(s, 0, Record::Header) {
        Err(_) => Err("unreadable header"),
        Ok((f, q)) => match (f[0], f[1]) {
            (Some(FieldVal::Span(a, b)), Some(FieldVal::Int(v))) => match header_check(
                s.subrange(a as int, b as int),
                v as u32,
            ) {
                Ok(_) => Ok((v as u32, span_bytes(s, f[2]), q)),
                Err(h) => Err(h),
            },
            _ => Err("unreadable header"),
        },
    }
}

/// Check the magic and the format version of a decoded header.
pub fn validate_header(magic_bytes: &[u8], format_version: u32) -> (r: Result<(), ChunkError>)
    ensures
        match header_check(magic_bytes@, format_version) {
            Ok(_) => r is Ok,
            Err(h) => r matches Err(ChunkError::Malformed(h2)) && h2 == h,
        },
{
    let expected: [u8; 4] = [0x6e, 0x78, 0x63, 0x68];
    proof {
        assert(expected@ =~= magic());
    }
    if !crate::value::bytes_eq(magic_bytes, expected.as_slice()) {
        return Err(ChunkError::Malformed("bad magic"));
    }
    if format_version != FORMAT_VERSION {
        return Err(ChunkError::Malformed("unknown format version"));
    }
    Ok(())
}

/// The bytes of an optional span of `s`, copied out.
fn copy_span(s: &[u8], v: Option<FieldVal>) -> (r: Option<Vec<u8>>)
    requires
        v matches Some(FieldVal::Span(a, b)) ==> a <= b <= s@.len(),
    ensures
        opt_bytes_view(r) == span_bytes(s@, v),
{
    match v {
        Some(FieldVal::Span(a, b)) => Some(crate::value::copy_bytes(crate::value::sub_slice(s, a, b))),
        _ => None,
    }
}

/// Decode the header at the start of `bytes`, returning it and where it ends.
fn read_header(bytes: &[u8]) -> (r: Result<(ChunkHeader, usize), ChunkError>)
    ensures
        match header_dec(bytes@) {
            Ok((v, o, q)) => r matches Ok((h, q2)) && h.format_version == v && opt_bytes_view(
                h.origin,
            ) == o && q2 == q && 0 < q <= bytes@.len(),
            Err(hint) => r matches Err(ChunkError::Malformed(h2)) && h2 == hint,
        },
{
    proof {
        reveal(header_dec);
    }
    let (f, q) = match read_map(bytes, 0, Record::Header) {
        Ok(x) => x,
        Err(_) => return Err(ChunkError::Malformed("unreadable header")),
    };
    let len = bytes.len();
    proof {
        assert(bytes@.len() == len);
        lemma_fields_bound(bytes@, 0, Record::Header);
    }
    match (f[0], f[1]) {
        (Some(FieldVal::Span(a, b)), Some(FieldVal::Int(v))) => {
            validate_header(crate::value::sub_slice(bytes, a, b), v as u32)?;
            let origin = copy_span(bytes, f[2]);
            Ok((ChunkHeader { format_version: v as u32, origin }, q))
        },
        _ => Err(ChunkError::Malformed("unreadable header")),
    }
}

/// Decode just the header: a cheap peek that validates magic and format
/// version and returns the chunk-level origin without parsing the body.
pub fn decode_header(bytes: &[u8]) -> (r: Result<ChunkHeader, ChunkError>)
    ensures
        match header_dec(bytes@) {
            Ok((v, o, _)) => r matches Ok(h) && h.format_version == v && opt_bytes_view(h.origin)
                == o,
            Err(hint) => r matches Err(ChunkError::Malformed(h2)) && h2 == hint,
        },
{
    let (h, _) = read_header(bytes)?;
    Ok(h)
}

/// Every slot is present, every span lies within `s`, and a text field's
/// span is UTF-8.
pub open spec fn fields_ok(f: Seq<Option<FieldVal>>, s: Seq<u8>, rec: Record) -> bool {
    &&& f.len() == FIELD_SLOTS
    &&& forall|i: int|
        0 <= i < f.len() ==> (#[trigger] f[i] matches Some(FieldVal::Span(a, b)) ==> a <= b
            <= s.len() && (field_kind(rec, i as u64) == FieldKind::Text ==> valid_utf8(
            s.subrange(a as int, b as int),
        )))
}

proof fn lemma_entry_keeps(s: Seq<u8>, p: int, rec: Record, f: Seq<Option<FieldVal>>)
    requires
        s.len() <= usize::MAX,
        fields_ok(f, s, rec),
    ensures
        entry_spec(s, p, rec, f) matches Ok((g, q)) ==> fields_ok(g, s, rec) && p < q <= s.len(),
{
    reveal(entry_spec);
    match u32_spec(s, p) {
        Ok((key, q)) => {
            lemma_value_bound(s, q, field_kind(rec, key));
            match value_spec(s, q, field_kind(rec, key)) {
                Ok((v, r)) => {
                    if let Some(x) = v {
                        let g = f.update(key as int, Some(x));
                        assert forall|i: int| 0 <= i < g.len() implies (#[trigger] g[i] matches Some(
                            FieldVal::Span(a, b),
                        ) ==> a <= b <= s.len() && (field_kind(rec, i as u64) == FieldKind::Text
                            ==> valid_utf8(s.subrange(a as int, b as int)))) by {
                            if i != key {
                                assert(g[i] == f[i]);
                            } else {
                                lemma_span_bound(s, q, MAJOR_TEXT as int);
                                lemma_span_bound(s, q, MAJOR_BYTES as int);
                            }
                        }
                    }
                },
                Err(_) => {},
            }
        },
        Err(_) => {},
    }
}

proof fn lemma_entries_keeps(s: Seq<u8>, p: int, n: nat, rec: Record, f: Seq<Option<FieldVal>>)
    requires
        s.len() <= usize::MAX,
        fields_ok(f, s, rec),
        0 <= p <= s.len(),
    ensures
        entries_spec(s, p, n, rec, f) matches Ok((g, q)) ==> fields_ok(g, s, rec) && p <= q
            <= s.len(),
    decreases n,
{
    if n > 0 {
        lemma_entry_keeps(s, p, rec, f);
        match entry_spec(s, p, rec, f) {
            Ok((g, q)) => lemma_entries_keeps(s, q, (n - 1) as nat, rec, g),
            Err(_) => {},
        }
    }
}

proof fn lemma_break_keeps(s: Seq<u8>, p: int, rec: Record, f: Seq<Option<FieldVal>>)
    requires
        s.len() <= usize::MAX,
        fields_ok(f, s, rec),
    ensures
        entries_break_spec(s, p, rec, f) matches Ok((g, q)) ==> fields_ok(g, s, rec) && p < q
            <= s.len(),
    decreases s.len() - p,
{
    if 0 <= p < s.len() && s[p] != 0xff {
        lemma_entry_keeps(s, p, rec, f);
        match entry_spec(s, p, rec, f) {
            Ok((g, q)) => if q > p && q <= s.len() {
                lemma_break_keeps(s, q, rec, g);
            },
            Err(_) => {},
        }
    }
}

/// Every span a record map yields lies within the input.
proof fn lemma_fields_bound(s: Seq<u8>, p: int, rec: Record)
    requires
        s.len() <= usize::MAX,
    ensures
        map_spec(s, p, rec) matches Ok((f, q)) ==> fields_ok(f, s, rec) && p < q <= s.len(),
{
    assert(fields_ok(no_fields(), s, rec));
    if 0 <= p < s.len() && major_at(s, p) == MAJOR_MAP as int {
        if (s[p] % 32) as int == 31 {
            lemma_break_keeps(s, p + 1, rec, no_fields());
        } else {
            match arg_spec(s, p) {
                Ok((n, q)) => lemma_entries_keeps(s, q, n as nat, rec, no_fields()),
                Err(_) => {},
            }
        }
    }
}

} // verus!

verus! {

// =============================================================================
// Decoding: blocks
// =============================================================================

/// The length of optional bytes (0 when absent).
pub open spec fn opt_len(m: Option<Seq<u8>>) -> nat {
    match m {
        Some(b) => b.len(),
        None => 0,
    }
}

/// Whether decoded body fields make a valid persisted event: nonzero
/// version and schema, a row that fits `u32` offsets, the event-type cap,
/// and metadata (when present) non-empty and within its cap.
pub open spec fn recon_ok(
    version: u64,
    schema: u32,
    event_type: Seq<u8>,
    metadata: Option<Seq<u8>>,
    payload: Seq<u8>,
) -> bool {
    &&& version != 0
    &&& schema != 0
    &&& event_type.len() + opt_len(metadata) + payload.len() <= u32::MAX
    &&& event_type.len() <= MAX_EVENT_TYPE_LEN
    &&& metadata matches Some(m) ==> 0 < m.len() <= MAX_METADATA_LEN
}

/// An envelope that carries exactly these fields.
pub open spec fn carries(
    e: PersistedEnvelope,
    version: u64,
    schema: u32,
    event_type: Seq<u8>,
    metadata: Option<Seq<u8>>,
    payload: Seq<u8>,
) -> bool {
    &&& e.wf()
    &&& e.spec_version().spec_u64() == version
    &&& e.spec_schema_version().spec_u32() == schema
    &&& e.event_type_view() == event_type
    &&& e.metadata_view() == metadata
    &&& e.payload_view() == payload
}

/// Rebuild a persisted envelope from decoded body fields. The row buffer
/// is `event_type | metadata? | payload`; the global sequence is a
/// placeholder (1) that import ignores. `None` on any field-level
/// violation.
pub fn reconstruct(
    version: u64,
    schema: u32,
    event_type: &[u8],
    metadata: Option<&[u8]>,
    payload: &[u8],
) -> (r: Option<PersistedEnvelope>)
    requires
        valid_utf8(event_type@),
    ensures
        r is Some <==> recon_ok(version, schema, event_type@, opt_slice_view(metadata), payload@),
        r matches Some(e) ==> carries(
            e,
            version,
            schema,
            event_type@,
            opt_slice_view(metadata),
            payload@,
        ) && e.spec_global_seq() == GlobalSeq::of(1),
{
    let v = match Version::new(version) {
        Some(v) => v,
        None => return None,
    };
    let sc = match SchemaVersion::from_u32(schema) {
        Ok(s) => s,
        Err(_) => return None,
    };
    let et_len = event_type.len();
    let meta_len: usize = match metadata {
        Some(m) => m.len(),
        None => 0,
    };
    let pl_len = payload.len();
    if et_len > 0xffff_ffff || meta_len > 0xffff_ffff - et_len || pl_len > 0xffff_ffff - et_len
        - meta_len {
        return None;
    }
    let mut buf: Vec<u8> = Vec::new();
    push_slice(&mut buf, event_type);
    let et_end = et_len as u32;
    let meta_range: Option<Range<u32>> = match metadata {
        Some(m) => {
            push_slice(&mut buf, m);
            Some(Range { start: et_end, end: (et_len + meta_len) as u32 })
        },
        None => None,
    };
    let pl_start = (et_len + meta_len) as u32;
    push_slice(&mut buf, payload);
    let pl_end = (et_len + meta_len + pl_len) as u32;
    let ghost value = buf@;
    proof {
        assert(value.subrange(0, et_len as int) =~= event_type@);
        assert(value.subrange(pl_start as int, pl_end as int) =~= payload@);
        if let Some(m) = metadata {
            assert(value.subrange(et_end as int, pl_start as int) =~= m@);
        }
    }
    match PersistedEnvelope::try_new(
        v,
        GlobalSeq::initial(),
        buf,
        sc,
        Range { start: 0, end: et_end },
        Range { start: pl_start, end: pl_end },
        meta_range,
    ) {
        Ok(e) => Some(e),
        Err(_) => None,
    }
}

/// A decoded block body: version, schema, event type, metadata, payload.
pub type BodyView = (u64, u32, Seq<u8>, Option<Seq<u8>>, Seq<u8>);

/// The fields of a checksum-valid body, or the hint of why it is refused.
pub open spec fn body_dec(body: Seq<u8>) -> Result<BodyView, &'static str> {
    match map_spec(body, 0, Record::Body) {
        Err(_) => Err("crc-valid body failed to decode"),
        Ok((f, _)) => match (f[0], f[1], f[2], f[4]) {
            (
                Some(FieldVal::Int(v)),
                Some(FieldVal::Int(sc)),
                Some(FieldVal::Span(a, b)),
                Some(FieldVal::Span(c, d)),
            ) => {
                let et = body.subrange(a as int, b as int);
                let meta = span_bytes(body, f[3]);
                let pl = body.subrange(c as int, d as int);
                if recon_ok(v, sc as u32, et, meta, pl) {
                    Ok((v, sc as u32, et, meta, pl))
                } else {
                    Err("crc-valid body has invalid fields")
                }
            },
            _ => Err("crc-valid body failed to decode"),
        },
    }
}

/// What one block at `p` decodes to.
pub enum BlockOutcome {
    /// The input ends inside the block.
    Torn,
    /// The checksum failed; the block ends at the position given.
    Corrupt(int),
    /// An intact event; the block ends at the position given.
    Event(BodyView, int),
    /// A structural violation, with its hint.
    Malformed(&'static str),
}

/// The outcome of decoding the block `[crc32c, body]` at `p`.
#[verifier::opaque]
pub open spec fn block_dec(s: Seq<u8>, p: int) -> BlockOutcome {
    if p < 0 || p >= s.len() {
        BlockOutcome::Torn
    } else if major_at(s, p) != MAJOR_ARRAY as int {
        BlockOutcome::Malformed("malformed block array")
    } else if (s[p] % 32) as int == 31 {
        BlockOutcome::Malformed("indefinite-length block array")
    } else {
        match arg_spec(s, p) {
            Err(DecodeFail::EndOfInput) => BlockOutcome::Torn,
            Err(DecodeFail::Invalid) => BlockOutcome::Malformed("malformed block array"),
            Ok((n, q)) => if n != 2 {
                BlockOutcome::Malformed("block array must have exactly 2 elements")
            } else {
                match u32_spec(s, q) {
                    Err(DecodeFail::EndOfInput) => BlockOutcome::Torn,
                    Err(DecodeFail::Invalid) => BlockOutcome::Malformed("malformed block crc"),
                    Ok((crc, q2)) => match string_spec(s, q2, MAJOR_BYTES as int) {
                        Err(DecodeFail::EndOfInput) => BlockOutcome::Torn,
                        Err(DecodeFail::Invalid) => BlockOutcome::Malformed(
                            "malformed block body bytes",
                        ),
                        Ok((a, b)) => {
                            let body = s.subrange(a, b);
                            if crc32c_of(body) as u64 != crc {
                                BlockOutcome::Corrupt(b)
                            } else {
                                match body_dec(body) {
                                    Ok(v) => BlockOutcome::Event(v, b),
                                    Err(h) => BlockOutcome::Malformed(h),
                                }
                            }
                        },
                    },
                }
            },
        }
    }
}

/// An import block that holds exactly what `v` says (`None` = corrupt).
pub open spec fn block_is(b: ImportBlock, v: Option<BodyView>) -> bool {
    match (b, v) {
        (ImportBlock::Event(e), Some(f)) => carries(e, f.0, f.1, f.2, f.3, f.4),
        (ImportBlock::Corrupt, None) => true,
        _ => false,
    }
}

/// Decode a checksum-valid body.
fn decode_body(body: &[u8]) -> (r: Result<PersistedEnvelope, &'static str>)
    ensures
        match body_dec(body@) {
            Ok(v) => r matches Ok(e) && carries(e, v.0, v.1, v.2, v.3, v.4),
            Err(h) => r matches Err(h2) && h2 == h,
        },
{
    let len = body.len();
    let (f, _) = match read_map(body, 0, Record::Body) {
        Ok(x) => x,
        Err(_) => return Err("crc-valid body failed to decode"),
    };
    proof {
        assert(body@.len() == len);
        lemma_fields_bound(body@, 0, Record::Body);
    }
    match (f[0], f[1], f[2], f[4]) {
        (
            Some(FieldVal::Int(v)),
            Some(FieldVal::Int(sc)),
            Some(FieldVal::Span(a, b)),
            Some(FieldVal::Span(c, d)),
        ) => {
            let et = crate::value::sub_slice(body, a, b);
            let pl = crate::value::sub_slice(body, c, d);
            let meta: Option<&[u8]> = match f[3] {
                Some(FieldVal::Span(m1, m2)) => Some(crate::value::sub_slice(body, m1, m2)),
                _ => None,
            };
            match reconstruct(v, sc as u32, et, meta, pl) {
                Some(e) => Ok(e),
                None => Err("crc-valid body has invalid fields"),
            }
        },
        _ => Err("crc-valid body failed to decode"),
    }
}

/// Decode one block at `p`. `Ok(Some((block, end)))` is an event or a
/// corrupt block and where it ends; `Ok(None)` is a torn tail (the input
/// ends inside the block); `Err(hint)` is a structural violation.
pub fn decode_block(s: &[u8], p: usize) -> (r: Result<Option<(ImportBlock, usize)>, &'static str>)
    ensures
        match block_dec(s@, p as int) {
            BlockOutcome::Torn => r matches Ok(None),
            BlockOutcome::Corrupt(q) => r matches Ok(Some((ImportBlock::Corrupt, q2))) && q2 == q
                && p < q <= s@.len(),
            BlockOutcome::Event(v, q) => r matches Ok(Some((b, q2))) && block_is(b, Some(v)) && q2
                == q && p < q <= s@.len(),
            BlockOutcome::Malformed(h) => r matches Err(h2) && h2 == h,
        },
{
    let len = s.len();
    proof {
        reveal(block_dec);
    }
    if p >= len {
        return Ok(None);
    }
    if s[p] / 32 != MAJOR_ARRAY {
        return Err("malformed block array");
    }
    if s[p] % 32 == 31 {
        return Err("indefinite-length block array");
    }
    let (n, q) = match read_arg(s, p) {
        Ok(x) => x,
        Err(DecodeFail::EndOfInput) => return Ok(None),
        Err(DecodeFail::Invalid) => return Err("malformed block array"),
    };
    if n != 2 {
        return Err("block array must have exactly 2 elements");
    }
    let (crc, q2) = match read_u32(s, q) {
        Ok(x) => x,
        Err(DecodeFail::EndOfInput) => return Ok(None),
        Err(DecodeFail::Invalid) => return Err("malformed block crc"),
    };
    let (a, b) = match read_string(s, q2, MAJOR_BYTES) {
        Ok(x) => x,
        Err(DecodeFail::EndOfInput) => return Ok(None),
        Err(DecodeFail::Invalid) => return Err("malformed block body bytes"),
    };
    proof {
        assert(s@.len() == len);
        lemma_span_bound(s@, q2 as int, MAJOR_BYTES as int);
    }
    let body = crate::value::sub_slice(s, a, b);
    if crc32c(body) as u64 != crc {
        return Ok(Some((ImportBlock::Corrupt, b)));
    }
    match decode_body(body) {
        Ok(e) => Ok(Some((ImportBlock::Event(e), b))),
        Err(h) => Err(h),
    }
}

/// The section heading at `p`: its stream id's span and where it ends.
#[verifier::opaque]
pub open spec fn heading_dec(s: Seq<u8>, p: int) -> Result<(usize, usize, int), DecodeFail> {
    match map_spec(s, p, Record::Heading) {
        Ok((f, q)) => match f[0] {
            Some(FieldVal::Span(a, b)) => Ok((a, b, q)),
            _ => Err(DecodeFail::Invalid),
        },
        Err(e) => Err(e),
    }
}

fn read_heading(s: &[u8], p: usize) -> (r: Result<(usize, usize, usize), DecodeFail>)
    ensures
        match heading_dec(s@, p as int) {
            Ok((a, b, q)) => r == Ok::<(usize, usize, usize), DecodeFail>((a, b, q as usize)) && a
                <= b <= s@.len() && p < q <= s@.len(),
            Err(e) => r == Err::<(usize, usize, usize), DecodeFail>(e),
        },
{
    let len = s.len();
    proof {
        reveal(heading_dec);
    }
    let (f, q) = read_map(s, p, Record::Heading)?;
    proof {
        assert(s@.len() == len);
        lemma_fields_bound(s@, p as int, Record::Heading);
    }
    match f[0] {
        Some(FieldVal::Span(a, b)) => Ok((a, b, q)),
        _ => Err(DecodeFail::Invalid),
    }
}

// =============================================================================
// Decoding: the chunk
// =============================================================================

/// A decoded section: origin stream id and its blocks (`None` = corrupt).
pub type SectionView = (Seq<u8>, Seq<Option<BodyView>>);

/// What an import block holds, as decoded fields (`None` = corrupt).
pub open spec fn block_view(b: ImportBlock) -> Option<BodyView> {
    match b {
        ImportBlock::Event(e) => Some(
            (
                e.spec_version().spec_u64(),
                e.spec_schema_version().spec_u32(),
                e.event_type_view(),
                e.metadata_view(),
                e.payload_view(),
            ),
        ),
        ImportBlock::Corrupt => None,
    }
}

/// An event block's envelope is well formed.
pub open spec fn block_wf(b: ImportBlock) -> bool {
    match b {
        ImportBlock::Event(e) => e.wf(),
        ImportBlock::Corrupt => true,
    }
}

pub open spec fn section_view(sec: StreamSection) -> SectionView {
    (sec.origin@, sec.blocks@.map_values(|b: ImportBlock| block_view(b)))
}

pub open spec fn sections_view(v: Seq<StreamSection>) -> Seq<SectionView> {
    v.map_values(|sec: StreamSection| section_view(sec))
}

/// Every event block of every section is well formed.
pub open spec fn sections_wf(v: Seq<StreamSection>) -> bool {
    forall|i: int, j: int|
        0 <= i < v.len() && 0 <= j < v[i].blocks@.len() ==> block_wf(#[trigger] v[i].blocks@[j])
}

/// Append a block to the last section.
pub open spec fn push_block(acc: Seq<SectionView>, b: Option<BodyView>) -> Seq<SectionView> {
    acc.update(acc.len() - 1, (acc.last().0, acc.last().1.push(b)))
}

/// Walk the items after the header from `p`, collecting sections into `acc`.
/// A map starts a section; an array is a block of the current section; a
/// torn tail ends the walk with what was collected.
pub open spec fn walk_spec(s: Seq<u8>, p: int, acc: Seq<SectionView>) -> Result<
    Seq<SectionView>,
    &'static str,
>
    decreases s.len() - p,
{
    if p < 0 || p >= s.len() {
        Ok(acc)
    } else if 0xa0 <= s[p] <= 0xbb {
        match heading_dec(s, p) {
            Ok((a, b, q)) => if q <= p || q > s.len() {
                Err("malformed section heading")
            } else {
                walk_spec(s, q, acc.push((s.subrange(a as int, b as int), Seq::empty())))
            },
            Err(DecodeFail::EndOfInput) => Ok(acc),
            Err(DecodeFail::Invalid) => Err("malformed section heading"),
        }
    } else if 0x80 <= s[p] <= 0x9b {
        match block_dec(s, p) {
            BlockOutcome::Torn => Ok(acc),
            BlockOutcome::Malformed(h) => Err(h),
            BlockOutcome::Corrupt(q) => if acc.len() == 0 {
                Err("block before section heading")
            } else if q <= p || q > s.len() {
                Err("malformed block array")
            } else {
                walk_spec(s, q, push_block(acc, None))
            },
            BlockOutcome::Event(v, q) => if acc.len() == 0 {
                Err("block before section heading")
            } else if q <= p || q > s.len() {
                Err("malformed block array")
            } else {
                walk_spec(s, q, push_block(acc, Some(v)))
            },
        }
    } else if 0x38 <= s[p] <= 0x3b && p + 1 >= s.len() {
        Ok(acc)
    } else {
        Err("unexpected item type")
    }
}

/// What a whole chunk decodes to: its sections, or the hint of why it is
/// malformed.
pub open spec fn chunk_dec(s: Seq<u8>) -> Result<Seq<SectionView>, &'static str> {
    match header_dec(s) {
        Ok((_, _, q)) => walk_spec(s, q, Seq::empty()),
        Err(h) => Err(h),
    }
}

/// The sections collected so far: the closed ones, then the open one.
pub open spec fn collected(
    done: Seq<StreamSection>,
    open: bool,
    origin: Seq<u8>,
    blocks: Seq<ImportBlock>,
) -> Seq<SectionView> {
    if open {
        sections_view(done).push((origin, blocks.map_values(|b: ImportBlock| block_view(b))))
    } else {
        sections_view(done)
    }
}

/// Close the open section, if any.
fn finish(
    done: Vec<StreamSection>,
    open: bool,
    origin: Vec<u8>,
    blocks: Vec<ImportBlock>,
) -> (r: Vec<StreamSection>)
    ensures
        sections_view(r@) == collected(done@, open, origin@, blocks@),
        sections_wf(done@) && (forall|j: int| 0 <= j < blocks@.len() ==> block_wf(
            #[trigger] blocks@[j],
        )) ==> sections_wf(r@),
{
    let mut done = done;
    if open {
        let ghost before = done@;
        done.push(StreamSection { origin, blocks });
        proof {
            assert(sections_view(done@) =~= collected(before, open, origin@, blocks@));
        }
    }
    done
}

/// Decode a whole chunk into per-stream sections for import.
///
/// Walks the CBOR sequence: the header first, then each item in turn — a
/// map starts a new section, an array is a block for the current section.
/// A torn tail stops cleanly and returns the valid prefix; any other
/// structural problem is [`ChunkError::Malformed`]. A per-block checksum
/// mismatch is a non-fatal [`ImportBlock::Corrupt`], never an error.
#[verifier::rlimit(40)]
pub fn decode_chunk(bytes: &[u8]) -> (r: Result<Vec<StreamSection>, ChunkError>)
    ensures
        match chunk_dec(bytes@) {
            Ok(v) => r matches Ok(secs) && sections_view(secs@) == v && sections_wf(secs@),
            Err(h) => r matches Err(ChunkError::Malformed(h2)) && h2 == h,
        },
{
    let len = bytes.len();
    let (_, start) = read_header(bytes)?;
    let mut done: Vec<StreamSection> = Vec::new();
    let mut open = false;
    let mut origin: Vec<u8> = Vec::new();
    let mut blocks: Vec<ImportBlock> = Vec::new();
    let mut pos = start;
    proof {
        assert(sections_view(done@) =~= Seq::<SectionView>::empty());
    }
    loop
        invariant
            len == bytes@.len(),
            pos <= len,
            chunk_dec(bytes@) == walk_spec(bytes@, pos as int, collected(done@, open, origin@, blocks@)),
            sections_wf(done@),
            forall|j: int| 0 <= j < blocks@.len() ==> block_wf(#[trigger] blocks@[j]),
            !open ==> done@.len() == 0,
        decreases len - pos,
    {
        let ghost acc = collected(done@, open, origin@, blocks@);
        if pos >= len {
            return Ok(finish(done, open, origin, blocks));
        }
        let b = bytes[pos];
        if 0xa0 <= b && b <= 0xbb {
            match read_heading(bytes, pos) {
                Ok((a, e, q)) => {
                    let ghost id = bytes@.subrange(a as int, e as int);
                    done = finish(done, open, origin, blocks);
                    origin = crate::value::copy_bytes(crate::value::sub_slice(bytes, a, e));
                    blocks = Vec::new();
                    open = true;
                    proof {
                        assert(blocks@.map_values(|b: ImportBlock| block_view(b)) =~= Seq::<
                            Option<BodyView>,
                        >::empty());
                        assert(collected(done@, open, origin@, blocks@) =~= acc.push(
                            (id, Seq::empty()),
                        ));
                    }
                    pos = q;
                },
                Err(DecodeFail::EndOfInput) => {
                    return Ok(finish(done, open, origin, blocks));
                },
                Err(DecodeFail::Invalid) => {
                    return Err(ChunkError::Malformed("malformed section heading"));
                },
            }
        } else if 0x80 <= b && b <= 0x9b {
            match decode_block(bytes, pos) {
                Ok(Some((blk, q))) => {
                    if !open {
                        return Err(ChunkError::Malformed("block before section heading"));
                    }
                    let ghost bv = block_view(blk);
                    let ghost old_blocks = blocks@;
                    blocks.push(blk);
                    proof {
                        assert(blocks@.map_values(|b: ImportBlock| block_view(b)) =~= old_blocks.map_values(
                            |b: ImportBlock| block_view(b),
                        ).push(bv));
                        assert(collected(done@, open, origin@, blocks@) =~= push_block(acc, bv));
                    }
                    pos = q;
                },
                Ok(None) => {
                    return Ok(finish(done, open, origin, blocks));
                },
                Err(h) => {
                    return Err(ChunkError::Malformed(h));
                },
            }
        } else if 0x38 <= b && b <= 0x3b && pos + 1 >= len {
            return Ok(finish(done, open, origin, blocks));
        } else {
            return Err(ChunkError::Malformed("unexpected item type"));
        }
    }
}

} // verus!

verus! {

// =============================================================================
// Writers
// =============================================================================

/// A chunk being written into an in-memory sink (writing cannot fail).
/// The header is on the wire the moment this exists; there is no
/// `finish` — a CBOR sequence has no terminator, so a chunk is complete
/// when writing stops.
pub struct ChunkWriter {
    buf: Vec<u8>,
}

impl ChunkWriter {
    /// Everything written so far.
    pub closed spec fn written(&self) -> Seq<u8> {
        self.buf@
    }

    /// A writer over `sink` that has emitted the chunk header.
    pub fn new(sink: Vec<u8>, origin: Option<&[u8]>) -> (r: ChunkWriter)
        ensures
            r.written() == sink@ + header_spec(opt_slice_view(origin)),
    {
        let mut buf = sink;
        write_header(&mut buf, origin);
        proof {
            assert(opt_slice_view(origin) == (match origin {
                Some(o) => Some(o@),
                None => None,
            }));
        }
        ChunkWriter { buf }
    }

    /// Begin the section of `stream_id`, recording the id once. The
    /// previous section's writer must be gone first: sections cannot
    /// interleave.
    pub fn section(&mut self, stream_id: &[u8]) -> (r: SectionWriter<'_>)
        ensures
            r.chunk.written() == old(self).written() + heading_spec(stream_id@),
            final(self).written() == final(r.chunk).written(),
    {
        write_heading(&mut self.buf, stream_id);
        SectionWriter { chunk: self }
    }

    fn append_block(&mut self, event: &PersistedEnvelope)
        requires
            event.wf(),
        ensures
            final(self).written() == old(self).written() + block_spec(event_body(*event)),
    {
        write_block(&mut self.buf, event);
    }

    /// Hand back the sink with everything written so far.
    pub fn into_sink(self) -> (r: Vec<u8>)
        ensures
            r@ == self.written(),
    {
        self.buf
    }
}

/// A section whose heading is open: the only thing that can write blocks.
pub struct SectionWriter<'a> {
    pub chunk: &'a mut ChunkWriter,
}

impl<'a> SectionWriter<'a> {
    /// Append one event as a block `[crc32c(body), body]`; the checksum
    /// covers exactly the body bytes.
    pub fn block(&mut self, event: &PersistedEnvelope)
        requires
            event.wf(),
        ensures
            final(self).chunk.written() == old(self).chunk.written() + block_spec(event_body(*event)),
            *final(final(self).chunk) == *final(old(self).chunk),
    {
        self.chunk.append_block(event);
    }
}

} // verus!

