//! What the box reads back of what it writes: decoding an encoded block,
//! header or heading gives back exactly the encoded fields, and a chunk cut
//! short at any point after its header decodes to the items before the cut.
use vstd::prelude::*;
use vstd::utf8::valid_utf8;
use crate::cbor::{
    block_dec, block_spec, crc32c_of, crc32c_byte, crc32c_register, crc32c_shift, event_body, BlockOutcome, MAJOR_ARRAY, BodyView,
    header_dec, header_spec, heading_dec, heading_spec, magic, FORMAT_VERSION, chunk_dec,
    push_block, walk_spec, SectionView,
    arg_spec, arg_width, be2, be4, be8, be_value, body_dec, body_spec, enc_bytes, enc_text,
    enc_uint, entries_spec, entry_spec, field_kind, head, major_at, map_spec, no_fields,
    opt_len, pow256, recon_ok, span_bytes, string_spec, u32_spec, uint_spec, value_spec,
    DecodeFail, FieldKind, FieldVal, Record, MAJOR_BYTES, MAJOR_MAP, MAJOR_TEXT, MAJOR_UINT,
};
use crate::envelope::PersistedEnvelope;
use crate::value::{MAX_EVENT_TYPE_LEN, MAX_METADATA_LEN};

verus! {

/// `x` sits at `p` in `s`.
pub open spec fn at(s: Seq<u8>, p: int, x: Seq<u8>) -> bool {
    0 <= p && p + x.len() <= s.len() && s.subrange(p, p + x.len()) == x
}

/// The two halves of `x + y` sit back to back.
pub proof fn lemma_at_split(s: Seq<u8>, p: int, x: Seq<u8>, y: Seq<u8>)
    requires
        at(s, p, x + y),
    ensures
        at(s, p, x),
        at(s, p + x.len(), y),
{
    let z = x + y;
    assert(s.subrange(p, p + x.len()) =~= x) by {
        assert forall|i: int| 0 <= i < x.len() implies s.subrange(p, p + x.len())[i] == x[i] by {
            assert(s.subrange(p, p + z.len())[i] == z[i]);
        }
    }
    assert(s.subrange(p + x.len(), p + x.len() + y.len()) =~= y) by {
        assert forall|i: int| 0 <= i < y.len() implies s.subrange(p + x.len(), p + x.len() + y.len())[i] == y[i] by {
            assert(s.subrange(p, p + z.len())[x.len() + i] == z[x.len() + i]);
        }
    }
}

proof fn lemma_be_local(s: Seq<u8>, p: int, k: nat)
    requires
        0 <= p,
        p + k <= s.len(),
    ensures
        be_value(s, p, k) == be_value(s.subrange(p, p + k), 0, k),
    decreases k,
{
    if k > 0 {
        lemma_be_local(s, p, (k - 1) as nat);
        let t = s.subrange(p, p + k);
        lemma_be_prefix(t, (k - 1) as nat);
        assert(s.subrange(p, p + k - 1) =~= t.subrange(0, k - 1));
    }
}

/// The value of the first `k` bytes only depends on them.
proof fn lemma_be_prefix(t: Seq<u8>, k: nat)
    requires
        k <= t.len(),
    ensures
        be_value(t, 0, k) == be_value(t.subrange(0, k as int), 0, k),
    decreases k,
{
    if k > 0 {
        lemma_be_prefix(t, (k - 1) as nat);
        lemma_be_prefix(t.subrange(0, k as int), (k - 1) as nat);
        assert(t.subrange(0, k as int).subrange(0, k - 1) =~= t.subrange(0, k - 1));
    }
}

proof fn lemma_be_concat(a: Seq<u8>, b: Seq<u8>, kb: nat)
    requires
        kb <= b.len(),
    ensures
        be_value(a + b, 0, a.len() + kb) == be_value(a, 0, a.len()) * pow256(kb) + be_value(b, 0, kb),
    decreases kb,
{
    if kb == 0 {
        lemma_be_prefix(a + b, a.len());
        assert((a + b).subrange(0, a.len() as int) =~= a);
        lemma_be_prefix(a, a.len());
        assert(a.subrange(0, a.len() as int) =~= a);
    } else {
        lemma_be_concat(a, b, (kb - 1) as nat);
        let x = be_value(a, 0, a.len());
        let y = be_value(b, 0, (kb - 1) as nat);
        let q = pow256((kb - 1) as nat);
        assert((a + b)[a.len() + kb - 1] == b[kb - 1]);
        assert((x * q + y) * 256 + b[kb - 1] == x * (256 * q) + (y * 256 + b[kb - 1])) by (nonlinear_arith);
    }
}

proof fn lemma_be2(n: u64)
    requires
        n < 0x10000,
    ensures
        be_value(be2(n), 0, 2) == n,
{
    reveal_with_fuel(be_value, 3);
    let b = be2(n);
    assert(b[0] as int == (n / 0x100) % 0x100);
    assert(b[1] as int == n % 0x100);
    assert(((n / 0x100) % 0x100) * 256 + n % 0x100 == n) by (nonlinear_arith)
        requires
            n < 0x10000,
    ;
}

proof fn lemma_be4(n: u64)
    requires
        n < 0x100000000,
    ensures
        be_value(be4(n), 0, 4) == n,
{
    reveal_with_fuel(be_value, 5);
    let b = be4(n);
    let x0 = ((n / 0x1000000) % 0x100) as u64;
    let x1 = ((n / 0x10000) % 0x100) as u64;
    let x2 = ((n / 0x100) % 0x100) as u64;
    let x3 = (n % 0x100) as u64;
    assert(b[0] as int == x0);
    assert(b[1] as int == x1);
    assert(b[2] as int == x2);
    assert(b[3] as int == x3);
    assert((((((n / 0x1000000) % 0x100) * 0x100 + ((n / 0x10000) % 0x100)) * 0x100 + ((n / 0x100)
        % 0x100)) * 0x100 + (n % 0x100)) == n) by (bit_vector)
        requires
            n < 0x100000000,
    ;
}

proof fn lemma_be8(n: u64)
    ensures
        be_value(be8(n), 0, 8) == n,
{
    let hi = n / 0x100000000;
    let lo = n % 0x100000000;
    lemma_be4(hi as u64);
    lemma_be4(lo as u64);
    lemma_be_concat(be4(hi as u64), be4(lo as u64), 4);
    reveal_with_fuel(pow256, 5);
    assert(hi * 0x100000000 + lo == n) by (nonlinear_arith)
        requires
            hi == n / 0x100000000,
            lo == n % 0x100000000,
    ;
}

/// The head of a data item reads back as its major type and argument.
pub proof fn lemma_head_at(s: Seq<u8>, p: int, major: u8, n: u64)
    requires
        major < 8,
        at(s, p, head(major, n)),
    ensures
        n < 24 ==> head(major, n).len() == 1,
        0 <= p < s.len(),
        major_at(s, p) == major,
        (s[p] % 32) as int != 31,
        arg_spec(s, p) == Ok::<(u64, int), DecodeFail>((n, p + head(major, n).len())),
{
    reveal(head);
    let h = head(major, n);
    let m = (major * 32) as int;
    assert(h.len() >= 1);
    assert(s[p] == h[0]) by {
        assert(s.subrange(p, p + h.len())[0] == s[p]);
    }
    if n < 24 {
        assert(h[0] as int == m + n);
    } else if n < 0x100 {
        assert(h[0] as int == m + 24);
        assert(s[p + 1] == h[1]) by {
            assert(s.subrange(p, p + h.len())[1] == s[p + 1]);
        }
        reveal_with_fuel(be_value, 2);
        assert(arg_width(24) == 1);
    } else if n < 0x10000 {
        assert(h[0] as int == m + 25);
        assert(s.subrange(p + 1, p + 3) =~= be2(n)) by {
            assert(h =~= seq![(m + 25) as u8] + be2(n));
            assert forall|i: int| 0 <= i < 2 implies s.subrange(p + 1, p + 3)[i] == be2(n)[i] by {
                assert(s.subrange(p, p + h.len())[i + 1] == s[p + 1 + i]);
            }
        }
        lemma_be_local(s, p + 1, 2);
        lemma_be2(n);
    } else if n < 0x100000000 {
        assert(h[0] as int == m + 26);
        assert(s.subrange(p + 1, p + 5) =~= be4(n)) by {
            assert(h =~= seq![(m + 26) as u8] + be4(n));
            assert forall|i: int| 0 <= i < 4 implies s.subrange(p + 1, p + 5)[i] == be4(n)[i] by {
                assert(s.subrange(p, p + h.len())[i + 1] == s[p + 1 + i]);
            }
        }
        lemma_be_local(s, p + 1, 4);
        lemma_be4(n);
    } else {
        assert(h[0] as int == m + 27);
        assert(s.subrange(p + 1, p + 9) =~= be8(n)) by {
            assert(h =~= seq![(m + 27) as u8] + be8(n));
            assert forall|i: int| 0 <= i < 8 implies s.subrange(p + 1, p + 9)[i] == be8(n)[i] by {
                assert(s.subrange(p, p + h.len())[i + 1] == s[p + 1 + i]);
            }
        }
        lemma_be_local(s, p + 1, 8);
        lemma_be8(n);
    }
}

/// An encoded unsigned integer reads back as itself.
pub proof fn lemma_uint_at(s: Seq<u8>, p: int, n: u64)
    requires
        at(s, p, enc_uint(n)),
    ensures
        uint_spec(s, p) == Ok::<(u64, int), DecodeFail>((n, p + enc_uint(n).len())),
        n <= u32::MAX ==> u32_spec(s, p) == Ok::<(u64, int), DecodeFail>((n, p + enc_uint(n).len())),
{
    lemma_head_at(s, p, MAJOR_UINT, n);
}

/// An encoded string reads back as its content's span.
pub proof fn lemma_string_at(s: Seq<u8>, p: int, major: u8, b: Seq<u8>)
    requires
        major == MAJOR_BYTES || major == MAJOR_TEXT,
        b.len() <= u64::MAX,
        major == MAJOR_TEXT ==> valid_utf8(b),
        at(s, p, head(major, b.len() as u64) + b),
    ensures
        ({
            let a = p + head(major, b.len() as u64).len();
            &&& string_spec(s, p, major as int) == Ok::<(int, int), DecodeFail>((a, a + b.len()))
            &&& s.subrange(a, a + b.len()) == b
            &&& s[p] != 0xf6
        }),
{
    let h = head(major, b.len() as u64);
    let x = h + b;
    assert(s.subrange(p, p + h.len()) =~= h) by {
        assert forall|i: int| 0 <= i < h.len() implies s.subrange(p, p + h.len())[i] == h[i] by {
            assert(s.subrange(p, p + x.len())[i] == x[i]);
        }
    }
    lemma_head_at(s, p, major, b.len() as u64);
    let a = p + h.len();
    assert(s.subrange(a, a + b.len()) =~= b) by {
        assert forall|i: int| 0 <= i < b.len() implies s.subrange(a, a + b.len())[i] == b[i] by {
            assert(s.subrange(p, p + x.len())[h.len() + i] == x[h.len() + i]);
        }
    }
}

/// A `key: unsigned` entry reads back into the key's slot.
pub proof fn lemma_int_entry(s: Seq<u8>, p: int, rec: Record, f: Seq<Option<FieldVal>>, key: u64, n: u64)
    requires
        key <= u32::MAX,
        0 <= key < f.len(),
        field_kind(rec, key) == FieldKind::Uint || (field_kind(rec, key) == FieldKind::U32 && n
            <= u32::MAX),
        at(s, p, enc_uint(key)),
        at(s, p + enc_uint(key).len(), enc_uint(n)),
    ensures
        entry_spec(s, p, rec, f) == Ok::<(Seq<Option<FieldVal>>, int), DecodeFail>(
            (f.update(key as int, Some(FieldVal::Int(n))), p + enc_uint(key).len() + enc_uint(n).len()),
        ),
{
    reveal(entry_spec);
    lemma_uint_at(s, p, key);
    lemma_uint_at(s, p + enc_uint(key).len(), n);
}

/// A `key: string` entry reads back into the key's slot as a span.
pub proof fn lemma_span_entry(
    s: Seq<u8>,
    p: int,
    rec: Record,
    f: Seq<Option<FieldVal>>,
    key: u64,
    major: u8,
    b: Seq<u8>,
)
    requires
        key <= u32::MAX,
        0 <= key < f.len(),
        s.len() <= usize::MAX,
        (major == MAJOR_BYTES && (field_kind(rec, key) == FieldKind::Bytes || field_kind(rec, key)
            == FieldKind::OptBytes)) || (major == MAJOR_TEXT && field_kind(rec, key)
            == FieldKind::Text && valid_utf8(b)),
        at(s, p, enc_uint(key)),
        at(s, p + enc_uint(key).len(), head(major, b.len() as u64) + b),
    ensures
        ({
            let a = p + enc_uint(key).len() + head(major, b.len() as u64).len();
            &&& entry_spec(s, p, rec, f) == Ok::<(Seq<Option<FieldVal>>, int), DecodeFail>(
                (f.update(key as int, Some(FieldVal::Span(a as usize, (a + b.len()) as usize))), a + b.len()),
            )
            &&& s.subrange(a, a + b.len()) == b
        }),
{
    reveal(entry_spec);
    lemma_uint_at(s, p, key);
    lemma_string_at(s, p + enc_uint(key).len(), major, b);
}

/// The encoded text of the event type.
pub open spec fn text_piece(event_type: Seq<u8>) -> Seq<u8> {
    head(MAJOR_TEXT, event_type.len() as u64) + event_type
}

/// The encoded bytes of `b`.
pub open spec fn bytes_piece(b: Seq<u8>) -> Seq<u8> {
    head(MAJOR_BYTES, b.len() as u64) + b
}

/// Where the entries of a body start: after its head, then after the
/// version, schema and event-type entries.
pub open spec fn body_pos(version: u64, schema: u32, event_type: Seq<u8>) -> (int, int, int, int) {
    let p0 = 1int;
    let p1 = p0 + enc_uint(0).len() + enc_uint(version).len();
    let p2 = p1 + enc_uint(1).len() + enc_uint(schema as u64).len();
    let p3 = p2 + enc_uint(2).len() + text_piece(event_type).len();
    (p0, p1, p2, p3)
}

/// Where each piece of a body sits.
#[verifier::rlimit(40)]
proof fn lemma_body_at(
    version: u64,
    schema: u32,
    event_type: Seq<u8>,
    metadata: Option<Seq<u8>>,
    payload: Seq<u8>,
)
    ensures
        ({
            let body = body_spec(version, schema, event_type, metadata, payload);
            let (p0, p1, p2, p3) = body_pos(version, schema, event_type);
            let cnt: u64 = if metadata is Some { 5 } else { 4 };
            &&& at(body, 0, head(MAJOR_MAP, cnt))
            &&& at(body, p0, enc_uint(0))
            &&& at(body, p0 + enc_uint(0).len(), enc_uint(version))
            &&& at(body, p1, enc_uint(1))
            &&& at(body, p1 + enc_uint(1).len(), enc_uint(schema as u64))
            &&& at(body, p2, enc_uint(2))
            &&& at(body, p2 + enc_uint(2).len(), text_piece(event_type))
            &&& match metadata {
                Some(m) => {
                    let p4 = p3 + enc_uint(3).len() + bytes_piece(m).len();
                    &&& at(body, p3, enc_uint(3))
                    &&& at(body, p3 + enc_uint(3).len(), bytes_piece(m))
                    &&& at(body, p4, enc_uint(4))
                    &&& at(body, p4 + enc_uint(4).len(), bytes_piece(payload))
                    &&& p4 + enc_uint(4).len() + bytes_piece(payload).len() == body.len()
                },
                None => {
                    &&& at(body, p3, enc_uint(4))
                    &&& at(body, p3 + enc_uint(4).len(), bytes_piece(payload))
                    &&& p3 + enc_uint(4).len() + bytes_piece(payload).len() == body.len()
                },
            }
        }),
{
    let body = body_spec(version, schema, event_type, metadata, payload);
    let cnt: u64 = if metadata is Some { 5 } else { 4 };
    let h = head(MAJOR_MAP, cnt);
    let u0 = enc_uint(0);
    let uv = enc_uint(version);
    let u1 = enc_uint(1);
    let us = enc_uint(schema as u64);
    let u2 = enc_uint(2);
    let tx = text_piece(event_type);
    let u4 = enc_uint(4);
    let py = bytes_piece(payload);
    let front = u0 + uv + u1 + us + u2 + tx;
    let back = u4 + py;
    reveal(head);
    assert(h.len() == 1);
    let head_front = h + front;
    assert(at(body, 0, body)) by {
        assert(body.subrange(0, body.len() as int) =~= body);
    }
    match metadata {
        Some(m) => {
            let u3 = enc_uint(3);
            let mt = bytes_piece(m);
            assert(body == head_front + u3 + mt + back);
            lemma_at_split(body, 0, head_front + u3 + mt, back);
            lemma_at_split(body, 0, head_front + u3, mt);
            lemma_at_split(body, 0, head_front, u3);
            lemma_at_split(body, (head_front.len() + u3.len() + mt.len()) as int, u4, py);
        },
        None => {
            assert(body == head_front + back);
            lemma_at_split(body, 0, head_front, back);
            lemma_at_split(body, head_front.len() as int, u4, py);
        },
    }
    lemma_at_split(body, 0, h, front);
    lemma_at_split(body, 1, u0 + uv + u1 + us + u2, tx);
    lemma_at_split(body, 1, u0 + uv + u1 + us, u2);
    lemma_at_split(body, 1, u0 + uv + u1, us);
    lemma_at_split(body, 1, u0 + uv, u1);
    lemma_at_split(body, 1, u0, uv);
}

/// One more entry in front of a run of entries.
proof fn lemma_entries_step(
    s: Seq<u8>,
    p: int,
    n: nat,
    rec: Record,
    f: Seq<Option<FieldVal>>,
    g: Seq<Option<FieldVal>>,
    q: int,
    res: Result<(Seq<Option<FieldVal>>, int), DecodeFail>,
)
    requires
        n > 0,
        entry_spec(s, p, rec, f) == Ok::<(Seq<Option<FieldVal>>, int), DecodeFail>((g, q)),
        entries_spec(s, q, (n - 1) as nat, rec, g) == res,
    ensures
        entries_spec(s, p, n, rec, f) == res,
{
}

/// What the map of a body decodes to.
#[verifier::rlimit(60)]
#[verifier::spinoff_prover]
proof fn lemma_body_map(
    version: u64,
    schema: u32,
    event_type: Seq<u8>,
    metadata: Option<Seq<u8>>,
    payload: Seq<u8>,
) -> (f: Seq<Option<FieldVal>>)
    requires
        valid_utf8(event_type),
        event_type.len() <= u64::MAX,
        payload.len() <= u64::MAX,
        metadata matches Some(m) ==> m.len() <= u64::MAX,
        body_spec(version, schema, event_type, metadata, payload).len() <= usize::MAX,
    ensures
        ({
            let body = body_spec(version, schema, event_type, metadata, payload);
            &&& map_spec(body, 0, Record::Body) == Ok::<(Seq<Option<FieldVal>>, int), DecodeFail>(
                (f, body.len() as int),
            )
            &&& f[0] == Some(FieldVal::Int(version))
            &&& f[1] == Some(FieldVal::Int(schema as u64))
            &&& (f[2] matches Some(FieldVal::Span(a, b)) && body.subrange(a as int, b as int)
                == event_type)
            &&& (f[4] matches Some(FieldVal::Span(a, b)) && body.subrange(a as int, b as int)
                == payload)
            &&& span_bytes(body, f[3]) == metadata
        }),
{
    let body = body_spec(version, schema, event_type, metadata, payload);
    let cnt: u64 = if metadata is Some { 5 } else { 4 };
    let (p0, p1, p2, p3) = body_pos(version, schema, event_type);
    lemma_body_at(version, schema, event_type, metadata, payload);
    lemma_head_at(body, 0, MAJOR_MAP, cnt);
    let rec = Record::Body;
    let nf = no_fields();
    lemma_int_entry(body, p0, rec, nf, 0, version);
    let f1 = nf.update(0, Some(FieldVal::Int(version)));
    lemma_int_entry(body, p1, rec, f1, 1, schema as u64);
    let f2 = f1.update(1, Some(FieldVal::Int(schema as u64)));
    lemma_span_entry(body, p2, rec, f2, 2, MAJOR_TEXT, event_type);
    let ea = p2 + enc_uint(2).len() + head(MAJOR_TEXT, event_type.len() as u64).len();
    let f3 = f2.update(2, Some(FieldVal::Span(ea as usize, (ea + event_type.len()) as usize)));
    match metadata {
        Some(m) => {
            let p4 = p3 + enc_uint(3).len() + bytes_piece(m).len();
            lemma_span_entry(body, p3, rec, f3, 3, MAJOR_BYTES, m);
            let ma = p3 + enc_uint(3).len() + head(MAJOR_BYTES, m.len() as u64).len();
            let f4 = f3.update(3, Some(FieldVal::Span(ma as usize, (ma + m.len()) as usize)));
            lemma_span_entry(body, p4, rec, f4, 4, MAJOR_BYTES, payload);
            let pa = p4 + enc_uint(4).len() + head(MAJOR_BYTES, payload.len() as u64).len();
            let f5 = f4.update(4, Some(FieldVal::Span(pa as usize, (pa + payload.len()) as usize)));
            let end = pa + payload.len();
            let res = Ok::<(Seq<Option<FieldVal>>, int), DecodeFail>((f5, end));
            assert(entries_spec(body, end, 0, rec, f5) == res);
            lemma_entries_step(body, p4, 1, rec, f4, f5, end, res);
            lemma_entries_step(body, p3, 2, rec, f3, f4, p4, res);
            lemma_entries_step(body, p2, 3, rec, f2, f3, p3, res);
            lemma_entries_step(body, p1, 4, rec, f1, f2, p2, res);
            lemma_entries_step(body, p0, 5, rec, nf, f1, p1, res);
            f5
        },
        None => {
            lemma_span_entry(body, p3, rec, f3, 4, MAJOR_BYTES, payload);
            let pa = p3 + enc_uint(4).len() + head(MAJOR_BYTES, payload.len() as u64).len();
            let f5 = f3.update(4, Some(FieldVal::Span(pa as usize, (pa + payload.len()) as usize)));
            let end = pa + payload.len();
            let res = Ok::<(Seq<Option<FieldVal>>, int), DecodeFail>((f5, end));
            assert(entries_spec(body, end, 0, rec, f5) == res);
            lemma_entries_step(body, p3, 1, rec, f3, f5, end, res);
            lemma_entries_step(body, p2, 2, rec, f2, f3, p3, res);
            lemma_entries_step(body, p1, 3, rec, f1, f2, p2, res);
            lemma_entries_step(body, p0, 4, rec, nf, f1, p1, res);
            f5
        },
    }
}

/// An encoded block body reads back as the fields it was made of.
pub proof fn lemma_body_round_trip(
    version: u64,
    schema: u32,
    event_type: Seq<u8>,
    metadata: Option<Seq<u8>>,
    payload: Seq<u8>,
)
    requires
        recon_ok(version, schema, event_type, metadata, payload),
        valid_utf8(event_type),
        body_spec(version, schema, event_type, metadata, payload).len() <= usize::MAX,
    ensures
        body_dec(body_spec(version, schema, event_type, metadata, payload)) == Ok::<
            (u64, u32, Seq<u8>, Option<Seq<u8>>, Seq<u8>),
            &'static str,
        >((version, schema, event_type, metadata, payload)),
{
    let f = lemma_body_map(version, schema, event_type, metadata, payload);
}

/// A block at `p` whose body decodes reads back as that body's fields.
pub proof fn lemma_block_at(s: Seq<u8>, p: int, body: Seq<u8>)
    requires
        at(s, p, block_spec(body)),
        body.len() <= u64::MAX,
        body_dec(body) is Ok,
    ensures
        block_dec(s, p) == BlockOutcome::Event(body_dec(body)->Ok_0, p + block_spec(body).len()),
{
    reveal(block_dec);
    let h = head(MAJOR_ARRAY, 2);
    let c = enc_uint(crc32c_of(body) as u64);
    let b = head(MAJOR_BYTES, body.len() as u64) + body;
    assert(block_spec(body) == h + c + b);
    lemma_at_split(s, p, h + c, b);
    lemma_at_split(s, p, h, c);
    lemma_head_at(s, p, MAJOR_ARRAY, 2);
    lemma_uint_at(s, p + h.len(), crc32c_of(body) as u64);
    lemma_string_at(s, p + h.len() + c.len(), MAJOR_BYTES, body);
}

proof fn lemma_shift_injective(x: u32, y: u32)
    requires
        crc32c_shift(x) == crc32c_shift(y),
    ensures
        x == y,
{
    assert(crc32c_shift(x) == crc32c_shift(y) ==> x == y) by (bit_vector);
}

/// Two registers that agree after a byte each agree before it, once the
/// bytes are folded in.
proof fn lemma_byte_inputs(c1: u32, b1: u8, c2: u32, b2: u8)
    requires
        crc32c_byte(c1, b1) == crc32c_byte(c2, b2),
    ensures
        c1 ^ (b1 as u32) == c2 ^ (b2 as u32),
{
    let x = c1 ^ (b1 as u32);
    let y = c2 ^ (b2 as u32);
    let (x1, y1) = (crc32c_shift(x), crc32c_shift(y));
    let (x2, y2) = (crc32c_shift(x1), crc32c_shift(y1));
    let (x3, y3) = (crc32c_shift(x2), crc32c_shift(y2));
    let (x4, y4) = (crc32c_shift(x3), crc32c_shift(y3));
    let (x5, y5) = (crc32c_shift(x4), crc32c_shift(y4));
    let (x6, y6) = (crc32c_shift(x5), crc32c_shift(y5));
    let (x7, y7) = (crc32c_shift(x6), crc32c_shift(y6));
    lemma_shift_injective(x7, y7);
    lemma_shift_injective(x6, y6);
    lemma_shift_injective(x5, y5);
    lemma_shift_injective(x4, y4);
    lemma_shift_injective(x3, y3);
    lemma_shift_injective(x2, y2);
    lemma_shift_injective(x1, y1);
    lemma_shift_injective(x, y);
}

/// Registers that differ keep differing over any common suffix.
proof fn lemma_register_suffix(a: Seq<u8>, b: Seq<u8>, t: Seq<u8>)
    requires
        crc32c_register(a) != crc32c_register(b),
    ensures
        crc32c_register(a + t) != crc32c_register(b + t),
    decreases t.len(),
{
    if t.len() == 0 {
        assert(a + t =~= a);
        assert(b + t =~= b);
    } else {
        let u = t.drop_last();
        lemma_register_suffix(a, b, u);
        assert((a + t).drop_last() =~= a + u);
        assert((b + t).drop_last() =~= b + u);
        let r1 = crc32c_register(a + u);
        let r2 = crc32c_register(b + u);
        let l = t.last();
        if crc32c_byte(r1, l) == crc32c_byte(r2, l) {
            lemma_byte_inputs(r1, l, r2, l);
            assert((r1 ^ (l as u32)) == (r2 ^ (l as u32)) ==> r1 == r2) by (bit_vector);
        }
    }
}

/// CRC-32C tells apart any two byte strings that differ in one byte.
pub proof fn lemma_crc_detects_changed_byte(d: Seq<u8>, i: int, v: u8)
    requires
        0 <= i < d.len(),
        v != d[i],
    ensures
        crc32c_of(d.update(i, v)) != crc32c_of(d),
{
    reveal(crc32c_of);
    let pre = d.take(i);
    let a = pre.push(d[i]);
    let b = pre.push(v);
    let t = d.skip(i + 1);
    assert(a.drop_last() =~= pre);
    assert(b.drop_last() =~= pre);
    let c = crc32c_register(pre);
    let w = d[i];
    if crc32c_byte(c, w) == crc32c_byte(c, v) {
        lemma_byte_inputs(c, w, c, v);
        assert((c ^ (w as u32)) == (c ^ (v as u32)) ==> w == v) by (bit_vector);
    }
    lemma_register_suffix(a, b, t);
    assert(a + t =~= d);
    assert(b + t =~= d.update(i, v));
    let x = crc32c_register(d);
    let y = crc32c_register(d.update(i, v));
    assert(x != y ==> (x ^ 0xFFFF_FFFFu32) != (y ^ 0xFFFF_FFFFu32)) by (bit_vector);
}

/// A written block whose body then has one byte changed reads as corrupt:
/// never as an event and never as malformed, and it ends where the block
/// did, so decoding goes on after it.
pub proof fn lemma_changed_body_byte_is_corrupt(s: Seq<u8>, p: int, body: Seq<u8>, i: int, v: u8)
    requires
        at(s, p, block_spec(body)),
        s.len() <= usize::MAX,
        0 <= i < body.len(),
        v != body[i],
    ensures
        block_dec(s.update(p + block_spec(body).len() - body.len() + i, v), p)
            == BlockOutcome::Corrupt(p + block_spec(body).len()),
{
    reveal(block_dec);
    let h = head(MAJOR_ARRAY, 2);
    let c = enc_uint(crc32c_of(body) as u64);
    let hb = head(MAJOR_BYTES, body.len() as u64);
    let body2 = body.update(i, v);
    let blk = block_spec(body);
    let blk2 = h + c + (hb + body2);
    assert(blk == h + c + (hb + body));
    let off = p + blk.len() - body.len() + i;
    let s2 = s.update(off, v);
    assert(blk2 =~= blk.update(blk.len() - body.len() + i, v));
    assert(at(s2, p, blk2)) by {
        assert(s2.subrange(p, p + blk2.len()) =~= blk2) by {
            assert forall|j: int| 0 <= j < blk2.len() implies s2.subrange(p, p + blk2.len())[j]
                == blk2[j] by {
                assert(s.subrange(p, p + blk.len())[j] == blk[j]);
            }
        }
    }
    assert(body.len() <= u64::MAX) by {
        assert(body.len() <= blk.len());
    }
    lemma_at_split(s2, p, h + c, hb + body2);
    lemma_at_split(s2, p, h, c);
    lemma_head_at(s2, p, MAJOR_ARRAY, 2);
    lemma_uint_at(s2, p + h.len(), crc32c_of(body) as u64);
    lemma_string_at(s2, p + h.len() + c.len(), MAJOR_BYTES, body2);
    lemma_crc_detects_changed_byte(body, i, v);
}

/// The fields of a persisted event, as the box decodes them.
pub open spec fn event_view(e: PersistedEnvelope) -> BodyView {
    (
        e.spec_version().spec_u64(),
        e.spec_schema_version().spec_u32(),
        e.event_type_view(),
        e.metadata_view(),
        e.payload_view(),
    )
}

/// A well-formed event whose row fits the box's `u32` offsets.
pub open spec fn event_fits(e: PersistedEnvelope) -> bool {
    &&& e.wf()
    &&& e.event_type_view().len() + opt_len(e.metadata_view()) + e.payload_view().len() <= u32::MAX
}

/// An event's block at `p` reads back as the event's fields.
pub proof fn lemma_event_block_at(s: Seq<u8>, p: int, e: PersistedEnvelope)
    requires
        event_fits(e),
        at(s, p, block_spec(event_body(e))),
        s.len() <= usize::MAX,
    ensures
        block_dec(s, p) == BlockOutcome::Event(event_view(e), p + block_spec(event_body(e)).len()),
{
    broadcast use crate::version::group_positions;
    e.lemma_wf();
    let body = event_body(e);
    let blk = block_spec(body);
    assert(blk == head(MAJOR_ARRAY, 2) + enc_uint(crc32c_of(body) as u64) + (head(
        MAJOR_BYTES,
        body.len() as u64,
    ) + body));
    assert(body.len() <= blk.len());
    lemma_body_round_trip(
        e.spec_version().spec_u64(),
        e.spec_schema_version().spec_u32(),
        e.event_type_view(),
        e.metadata_view(),
        e.payload_view(),
    );
    lemma_block_at(s, p, body);
}

/// What the box reads back of an event it wrote: decoding the block of a
/// well-formed event gives back its version, schema version, event type,
/// metadata and payload — for every event whose row fits the box's `u32`
/// offsets.
pub proof fn lemma_event_block_round_trip(e: PersistedEnvelope)
    requires
        event_fits(e),
        block_spec(event_body(e)).len() <= usize::MAX,
    ensures
        block_dec(block_spec(event_body(e)), 0) == BlockOutcome::Event(
            event_view(e),
            block_spec(event_body(e)).len() as int,
        ),
{
    let blk = block_spec(event_body(e));
    assert(at(blk, 0, blk)) by {
        assert(blk.subrange(0, blk.len() as int) =~= blk);
    }
    lemma_event_block_at(blk, 0, e);
}

/// A section heading at `p` reads back as its stream id.
pub proof fn lemma_heading_at(s: Seq<u8>, p: int, stream_id: Seq<u8>)
    requires
        at(s, p, heading_spec(stream_id)),
        s.len() <= usize::MAX,
        stream_id.len() <= u64::MAX,
    ensures
        heading_dec(s, p) matches Ok((a, b, q)) && s.subrange(a as int, b as int) == stream_id && q
            == p + heading_spec(stream_id).len(),
{
    reveal(heading_dec);
    let h = head(MAJOR_MAP, 1);
    let k = enc_uint(0);
    let v = bytes_piece(stream_id);
    assert(heading_spec(stream_id) == h + k + v);
    lemma_at_split(s, p, h + k, v);
    lemma_at_split(s, p, h, k);
    lemma_head_at(s, p, MAJOR_MAP, 1);
    let rec = Record::Heading;
    let nf = no_fields();
    lemma_span_entry(s, p + 1, rec, nf, 0, MAJOR_BYTES, stream_id);
    let a = p + 1 + k.len() + head(MAJOR_BYTES, stream_id.len() as u64).len();
    let f1 = nf.update(0, Some(FieldVal::Span(a as usize, (a + stream_id.len()) as usize)));
    let end = a + stream_id.len();
    let res = Ok::<(Seq<Option<FieldVal>>, int), DecodeFail>((f1, end));
    assert(entries_spec(s, end, 0, rec, f1) == res);
    lemma_entries_step(s, p + 1, 1, rec, nf, f1, end, res);
}

/// A header at the start of `s` reads back as its format version and
/// origin.
#[verifier::rlimit(40)]
pub proof fn lemma_header_at(s: Seq<u8>, origin: Option<Seq<u8>>)
    requires
        at(s, 0, header_spec(origin)),
        s.len() <= usize::MAX,
    ensures
        header_dec(s) == Ok::<(u32, Option<Seq<u8>>, int), &'static str>(
            (FORMAT_VERSION, origin, header_spec(origin).len() as int),
        ),
{
    reveal(header_dec);
    let cnt: u64 = if origin is Some { 3 } else { 2 };
    let h = head(MAJOR_MAP, cnt);
    let u0 = enc_uint(0);
    let mg = bytes_piece(magic());
    let u1 = enc_uint(1);
    let fv = enc_uint(FORMAT_VERSION as u64);
    let fixed = u0 + mg + u1 + fv;
    assert(enc_bytes(magic()) == mg);
    let rec = Record::Header;
    let nf = no_fields();
    match origin {
        Some(o) => {
            let u2 = enc_uint(2);
            let og = bytes_piece(o);
            assert(header_spec(origin) == h + fixed + u2 + og);
            lemma_at_split(s, 0, h + fixed + u2, og);
            lemma_at_split(s, 0, h + fixed, u2);
        },
        None => {
            assert(header_spec(origin) == h + fixed);
        },
    }
    lemma_at_split(s, 0, h, fixed);
    lemma_head_at(s, 0, MAJOR_MAP, cnt);
    lemma_at_split(s, 1, u0 + mg + u1, fv);
    lemma_at_split(s, 1, u0 + mg, u1);
    lemma_at_split(s, 1, u0, mg);
    let p1: int = 1int + u0.len() + mg.len();
    let p2: int = p1 + u1.len() + fv.len();
    lemma_span_entry(s, 1, rec, nf, 0, MAJOR_BYTES, magic());
    let ma: int = 1int + u0.len() + head(MAJOR_BYTES, 4).len();
    let f1 = nf.update(0, Some(FieldVal::Span(ma as usize, (ma + 4) as usize)));
    lemma_int_entry(s, p1, rec, f1, 1, FORMAT_VERSION as u64);
    let f2 = f1.update(1, Some(FieldVal::Int(FORMAT_VERSION as u64)));
    match origin {
        Some(o) => {
            lemma_span_entry(s, p2, rec, f2, 2, MAJOR_BYTES, o);
            let oa: int = p2 + enc_uint(2).len() + head(MAJOR_BYTES, o.len() as u64).len();
            let f3 = f2.update(2, Some(FieldVal::Span(oa as usize, (oa + o.len()) as usize)));
            let end: int = oa + o.len();
            let res = Ok::<(Seq<Option<FieldVal>>, int), DecodeFail>((f3, end));
            assert(entries_spec(s, end, 0, rec, f3) == res);
            lemma_entries_step(s, p2, 1, rec, f2, f3, end, res);
            lemma_entries_step(s, p1, 2, rec, f1, f2, p2, res);
            lemma_entries_step(s, 1, 3, rec, nf, f1, p1, res);
            assert(span_bytes(s, f3[2]) == Some(o));
        },
        None => {
            let res = Ok::<(Seq<Option<FieldVal>>, int), DecodeFail>((f2, p2));
            assert(entries_spec(s, p2, 0, rec, f2) == res);
            lemma_entries_step(s, p1, 1, rec, f1, f2, p2, res);
            lemma_entries_step(s, 1, 2, rec, nf, f1, p1, res);
            assert(span_bytes(s, f2[2]) == None::<Seq<u8>>);
        },
    }
}

/// What the box reads back of a header it wrote: the format version and
/// the origin.
pub proof fn lemma_header_round_trip(origin: Option<Seq<u8>>)
    requires
        header_spec(origin).len() <= usize::MAX,
    ensures
        header_dec(header_spec(origin)) == Ok::<(u32, Option<Seq<u8>>, int), &'static str>(
            (FORMAT_VERSION, origin, header_spec(origin).len() as int),
        ),
{
    let s = header_spec(origin);
    assert(at(s, 0, s)) by {
        assert(s.subrange(0, s.len() as int) =~= s);
    }
    lemma_header_at(s, origin);
}

/// The blocks of a run of events, back to back.
pub open spec fn blocks_bytes(evs: Seq<PersistedEnvelope>) -> Seq<u8>
    decreases evs.len(),
{
    if evs.len() == 0 {
        Seq::empty()
    } else {
        block_spec(event_body(evs[0])) + blocks_bytes(evs.drop_first())
    }
}

/// Each section's heading followed by its blocks, back to back.
pub open spec fn sections_bytes(secs: Seq<(Seq<u8>, Seq<PersistedEnvelope>)>) -> Seq<u8>
    decreases secs.len(),
{
    if secs.len() == 0 {
        Seq::empty()
    } else {
        heading_spec(secs[0].0) + blocks_bytes(secs[0].1) + sections_bytes(secs.drop_first())
    }
}

/// A whole chunk: the header, then the sections.
pub open spec fn chunk_bytes(origin: Option<Seq<u8>>, secs: Seq<(Seq<u8>, Seq<PersistedEnvelope>)>) -> Seq<u8> {
    header_spec(origin) + sections_bytes(secs)
}

/// What decoding gives for a run of events.
pub open spec fn events_view(evs: Seq<PersistedEnvelope>) -> Seq<Option<BodyView>> {
    evs.map_values(|e: PersistedEnvelope| Some(event_view(e)))
}

/// What decoding gives for the sections.
pub open spec fn sections_view_of(secs: Seq<(Seq<u8>, Seq<PersistedEnvelope>)>) -> Seq<SectionView> {
    secs.map_values(|sec: (Seq<u8>, Seq<PersistedEnvelope>)| (sec.0, events_view(sec.1)))
}

/// Every event of every section fits.
pub open spec fn all_fit(secs: Seq<(Seq<u8>, Seq<PersistedEnvelope>)>) -> bool {
    forall|i: int, j: int|
        0 <= i < secs.len() && 0 <= j < secs[i].1.len() ==> event_fits(#[trigger] secs[i].1[j])
}

/// Extend the last collected section by a run of events.
pub open spec fn extend_last(acc: Seq<SectionView>, evs: Seq<PersistedEnvelope>) -> Seq<SectionView> {
    acc.update(acc.len() - 1, (acc.last().0, acc.last().1 + events_view(evs)))
}

/// `s` stops inside `x` placed at `p` (at `p` or later, but before `x` is
/// complete), and what it holds from `p` on is the start of `x`.
pub open spec fn ends_in(s: Seq<u8>, p: int, x: Seq<u8>) -> bool {
    &&& 0 <= p <= s.len() < p + x.len()
    &&& s.subrange(p, s.len() as int) == x.take(s.len() - p)
}

/// `s` holds, from `p` to its end, a prefix (possibly all) of `x`.
pub open spec fn holds_prefix(s: Seq<u8>, p: int, x: Seq<u8>) -> bool {
    &&& 0 <= p <= s.len() <= p + x.len()
    &&& s.subrange(p, s.len() as int) == x.take(s.len() - p)
}

proof fn lemma_prefix_split(s: Seq<u8>, p: int, x: Seq<u8>, y: Seq<u8>)
    requires
        holds_prefix(s, p, x + y),
    ensures
        s.len() < p + x.len() ==> ends_in(s, p, x),
        s.len() >= p + x.len() ==> at(s, p, x) && holds_prefix(s, p + x.len(), y),
{
    let z = x + y;
    let m = s.len() - p;
    if s.len() < p + x.len() {
        assert(s.subrange(p, s.len() as int) =~= x.take(m)) by {
            assert forall|i: int| 0 <= i < m implies s.subrange(p, s.len() as int)[i] == x.take(m)[i] by {
                assert(z.take(m)[i] == z[i]);
            }
        }
    } else {
        assert(s.subrange(p, p + x.len()) =~= x) by {
            assert forall|i: int| 0 <= i < x.len() implies s.subrange(p, p + x.len())[i] == x[i] by {
                assert(s.subrange(p, s.len() as int)[i] == z.take(m)[i]);
            }
        }
        let m2 = s.len() - (p + x.len());
        assert(s.subrange(p + x.len(), s.len() as int) =~= y.take(m2)) by {
            assert forall|i: int| 0 <= i < m2 implies s.subrange(p + x.len(), s.len() as int)[i] == y.take(m2)[i] by {
                assert(s.subrange(p, s.len() as int)[x.len() + i] == z.take(m)[x.len() + i]);
            }
        }
    }
}

/// A head cut short after its first byte reads as a torn tail.
proof fn lemma_head_torn(s: Seq<u8>, p: int, major: u8, n: u64)
    requires
        major < 8,
        ends_in(s, p, head(major, n)),
        p < s.len(),
    ensures
        major_at(s, p) == major,
        arg_spec(s, p) == Err::<(u64, int), DecodeFail>(DecodeFail::EndOfInput),
{
    reveal(head);
    let h = head(major, n);
    let m = (major * 32) as int;
    assert(s[p] == h[0]) by {
        assert(s.subrange(p, s.len() as int)[0] == h.take(s.len() - p)[0]);
    }
    if n < 24 {
        assert(h.len() == 1);
    } else if n < 0x100 {
        assert(h[0] as int == m + 24);
    } else if n < 0x10000 {
        assert(h[0] as int == m + 25);
    } else if n < 0x100000000 {
        assert(h[0] as int == m + 26);
    } else {
        assert(h[0] as int == m + 27);
    }
}

/// A block cut short after its first byte is a torn tail.
proof fn lemma_block_torn(s: Seq<u8>, p: int, body: Seq<u8>)
    requires
        ends_in(s, p, block_spec(body)),
        p < s.len(),
        body.len() <= u64::MAX,
    ensures
        block_dec(s, p) == BlockOutcome::Torn,
        0x80 <= s[p] <= 0x9b,
{
    reveal(block_dec);
    let h = head(MAJOR_ARRAY, 2);
    let crc = crc32c_of(body) as u64;
    let c = enc_uint(crc);
    let hb = head(MAJOR_BYTES, body.len() as u64);
    let b = hb + body;
    assert(block_spec(body) == h + (c + b));
    assert(h.len() == 1) by {
        reveal(head);
    }
    lemma_prefix_split(s, p, h, c + b);
    lemma_head_at(s, p, MAJOR_ARRAY, 2);
    let q = p + 1;
    lemma_prefix_split(s, q, c, b);
    if s.len() < q + c.len() {
        if q < s.len() {
            lemma_head_torn(s, q, MAJOR_UINT, crc);
        }
    } else {
        lemma_uint_at(s, q, crc);
        let q2 = q + c.len();
        lemma_prefix_split(s, q2, hb, body);
        if s.len() < q2 + hb.len() {
            if q2 < s.len() {
                lemma_head_torn(s, q2, MAJOR_BYTES, body.len() as u64);
            }
        } else {
            lemma_head_at(s, q2, MAJOR_BYTES, body.len() as u64);
        }
    }
}

/// A section heading cut short after its first byte reads as a torn tail.
proof fn lemma_heading_torn(s: Seq<u8>, p: int, id: Seq<u8>)
    requires
        ends_in(s, p, heading_spec(id)),
        p < s.len(),
        id.len() <= u64::MAX,
    ensures
        heading_dec(s, p) == Err::<(usize, usize, int), DecodeFail>(DecodeFail::EndOfInput),
        0xa0 <= s[p] <= 0xbb,
{
    reveal(heading_dec);
    reveal(entry_spec);
    let h = head(MAJOR_MAP, 1);
    let k = enc_uint(0);
    let hb = head(MAJOR_BYTES, id.len() as u64);
    assert(h.len() == 1 && k.len() == 1) by {
        reveal(head);
    }
    assert(heading_spec(id) == h + (k + (hb + id)));
    lemma_prefix_split(s, p, h, k + (hb + id));
    lemma_head_at(s, p, MAJOR_MAP, 1);
    let q = p + 1;
    lemma_prefix_split(s, q, k, hb + id);
    if q < s.len() {
        lemma_uint_at(s, q, 0);
        let q2 = q + 1;
        lemma_prefix_split(s, q2, hb, id);
        if s.len() < q2 + hb.len() {
            if q2 < s.len() {
                lemma_head_torn(s, q2, MAJOR_BYTES, id.len() as u64);
            }
        } else {
            lemma_head_at(s, q2, MAJOR_BYTES, id.len() as u64);
        }
        assert(value_spec(s, q2, FieldKind::Bytes) == Err::<(Option<FieldVal>, int), DecodeFail>(
            DecodeFail::EndOfInput,
        ));
    }
    assert(entries_spec(s, q, 1, Record::Heading, no_fields()) == Err::<
        (Seq<Option<FieldVal>>, int),
        DecodeFail,
    >(DecodeFail::EndOfInput));
}

/// A `key: unsigned` entry cut short reads as a torn tail.
proof fn lemma_int_entry_torn(s: Seq<u8>, p: int, rec: Record, f: Seq<Option<FieldVal>>, key: u64, n: u64)
    requires
        key < 24,
        field_kind(rec, key) == FieldKind::Uint || field_kind(rec, key) == FieldKind::U32,
        ends_in(s, p, enc_uint(key) + enc_uint(n)),
    ensures
        entry_spec(s, p, rec, f) == Err::<(Seq<Option<FieldVal>>, int), DecodeFail>(
            DecodeFail::EndOfInput,
        ),
{
    reveal(entry_spec);
    let k = enc_uint(key);
    let v = enc_uint(n);
    assert(k.len() == 1) by {
        reveal(head);
    }
    lemma_prefix_split(s, p, k, v);
    if p < s.len() {
        lemma_uint_at(s, p, key);
        let q = p + 1;
        if q < s.len() {
            lemma_head_torn(s, q, MAJOR_UINT, n);
        }
    }
}

/// A `key: string` entry cut short reads as a torn tail.
proof fn lemma_span_entry_torn(
    s: Seq<u8>,
    p: int,
    rec: Record,
    f: Seq<Option<FieldVal>>,
    key: u64,
    major: u8,
    b: Seq<u8>,
)
    requires
        key < 24,
        b.len() <= u64::MAX,
        (major == MAJOR_BYTES && (field_kind(rec, key) == FieldKind::Bytes || field_kind(rec, key)
            == FieldKind::OptBytes)) || (major == MAJOR_TEXT && field_kind(rec, key)
            == FieldKind::Text),
        ends_in(s, p, enc_uint(key) + (head(major, b.len() as u64) + b)),
    ensures
        entry_spec(s, p, rec, f) == Err::<(Seq<Option<FieldVal>>, int), DecodeFail>(
            DecodeFail::EndOfInput,
        ),
{
    reveal(entry_spec);
    let k = enc_uint(key);
    let hb = head(major, b.len() as u64);
    assert(k.len() == 1) by {
        reveal(head);
    }
    lemma_prefix_split(s, p, k, hb + b);
    if p < s.len() {
        lemma_uint_at(s, p, key);
        let q = p + 1;
        lemma_prefix_split(s, q, hb, b);
        if q < s.len() {
            if s.len() < q + hb.len() {
                lemma_head_torn(s, q, major, b.len() as u64);
            } else {
                lemma_head_at(s, q, major, b.len() as u64);
            }
            assert(s[q] != 0xf6);
        }
    }
}

/// A chunk cut short inside its header is refused: the header cannot be
/// read.
#[verifier::rlimit(40)]
#[verifier::spinoff_prover]
pub proof fn lemma_torn_header(origin: Option<Seq<u8>>, secs: Seq<(Seq<u8>, Seq<PersistedEnvelope>)>, m: int)
    requires
        0 <= m < header_spec(origin).len(),
        chunk_bytes(origin, secs).len() <= usize::MAX,
    ensures
        chunk_dec(chunk_bytes(origin, secs).take(m)) == Err::<Seq<SectionView>, &'static str>(
            "unreadable header",
        ),
{
    reveal(header_dec);
    let hdr = header_spec(origin);
    let s = chunk_bytes(origin, secs).take(m);
    assert(s =~= hdr.take(m));
    let cnt: u64 = if origin is Some { 3 } else { 2 };
    let h = head(MAJOR_MAP, cnt);
    let e1 = enc_uint(0) + bytes_piece(magic());
    let e2 = enc_uint(1) + enc_uint(FORMAT_VERSION as u64);
    let rec = Record::Header;
    let nf = no_fields();
    assert(h.len() == 1 && enc_uint(0).len() == 1 && enc_uint(1).len() == 1 && enc_uint(2).len()
        == 1) by {
        reveal(head);
    }
    assert(enc_bytes(magic()) == bytes_piece(magic()));
    let rest: Seq<u8> = match origin {
        Some(o) => e2 + (enc_uint(2) + bytes_piece(o)),
        None => e2,
    };
    assert(hdr =~= h + (e1 + rest));
    assert(ends_in(s, 0, hdr)) by {
        assert(s.subrange(0, s.len() as int) =~= hdr.take(m));
    }
    if m > 0 {
        lemma_prefix_split(s, 0, h, e1 + rest);
        lemma_head_at(s, 0, MAJOR_MAP, cnt);
        let err = Err::<(Seq<Option<FieldVal>>, int), DecodeFail>(DecodeFail::EndOfInput);
        lemma_prefix_split(s, 1, e1, rest);
        if s.len() < 1 + e1.len() {
            lemma_span_entry_torn(s, 1, rec, nf, 0, MAJOR_BYTES, magic());
        } else {
            lemma_at_split(s, 1, enc_uint(0), bytes_piece(magic()));
            lemma_span_entry(s, 1, rec, nf, 0, MAJOR_BYTES, magic());
            let p1: int = 1int + e1.len();
            let ma: int = 1int + 1 + head(MAJOR_BYTES, 4).len();
            let f1 = nf.update(0, Some(FieldVal::Span(ma as usize, (ma + 4) as usize)));
            match origin {
                Some(o) => {
                    let e3 = enc_uint(2) + bytes_piece(o);
                    assert(o.len() <= u64::MAX) by {
                        assert(o.len() <= hdr.len());
                    }
                    lemma_prefix_split(s, p1, e2, e3);
                    if s.len() < p1 + e2.len() {
                        lemma_int_entry_torn(s, p1, rec, f1, 1, FORMAT_VERSION as u64);
                    } else {
                        lemma_at_split(s, p1, enc_uint(1), enc_uint(FORMAT_VERSION as u64));
                        lemma_int_entry(s, p1, rec, f1, 1, FORMAT_VERSION as u64);
                        let p2: int = p1 + e2.len();
                        let f2 = f1.update(1, Some(FieldVal::Int(FORMAT_VERSION as u64)));
                        lemma_span_entry_torn(s, p2, rec, f2, 2, MAJOR_BYTES, o);
                        assert(entries_spec(s, p2, 1, rec, f2) == err);
                        lemma_entries_step(s, p1, 2, rec, f1, f2, p2, err);
                    }
                },
                None => {
                    lemma_int_entry_torn(s, p1, rec, f1, 1, FORMAT_VERSION as u64);
                },
            }
            lemma_entries_step(s, 1, cnt as nat, rec, nf, f1, p1, err);
        }
    }
}

/// How many of `evs`' blocks lie wholly within the first `m` bytes of
/// their bytes.
pub open spec fn blocks_within(evs: Seq<PersistedEnvelope>, m: int) -> nat
    decreases evs.len(),
{
    if evs.len() == 0 || m < block_spec(event_body(evs[0])).len() {
        0
    } else {
        1 + blocks_within(evs.drop_first(), m - block_spec(event_body(evs[0])).len())
    }
}

/// The sections, and their events, written in full within the first `m`
/// bytes after the header: every section whose heading is complete, each
/// with the events whose blocks are complete.
pub open spec fn sections_within(secs: Seq<(Seq<u8>, Seq<PersistedEnvelope>)>, m: int) -> Seq<
    (Seq<u8>, Seq<PersistedEnvelope>),
>
    decreases secs.len(),
{
    if secs.len() == 0 || m < heading_spec(secs[0].0).len() {
        Seq::empty()
    } else {
        let evs = secs[0].1;
        let m1 = m - heading_spec(secs[0].0).len();
        let k = blocks_within(evs, m1);
        if k < evs.len() {
            seq![(secs[0].0, evs.take(k as int))]
        } else {
            seq![secs[0]] + sections_within(secs.drop_first(), m1 - blocks_bytes(evs).len())
        }
    }
}

proof fn lemma_walk_blocks_prefix(
    s: Seq<u8>,
    p: int,
    acc: Seq<SectionView>,
    evs: Seq<PersistedEnvelope>,
    secs: Seq<(Seq<u8>, Seq<PersistedEnvelope>)>,
)
    requires
        acc.len() >= 1,
        holds_prefix(s, p, blocks_bytes(evs) + sections_bytes(secs)),
        p + (blocks_bytes(evs) + sections_bytes(secs)).len() <= usize::MAX,
        forall|j: int| 0 <= j < evs.len() ==> event_fits(#[trigger] evs[j]),
        all_fit(secs),
    ensures
        ({
            let m = s.len() - p;
            let k = blocks_within(evs, m);
            walk_spec(s, p, acc) == Ok::<Seq<SectionView>, &'static str>(
                if k < evs.len() {
                    extend_last(acc, evs.take(k as int))
                } else {
                    extend_last(acc, evs) + sections_view_of(
                        sections_within(secs, m - blocks_bytes(evs).len()),
                    )
                },
            )
        }),
    decreases secs.len(), evs.len(), 1int,
{
    let m = s.len() - p;
    if evs.len() == 0 {
        assert(blocks_bytes(evs) + sections_bytes(secs) =~= sections_bytes(secs));
        assert(events_view(evs) =~= Seq::<Option<BodyView>>::empty());
        assert(extend_last(acc, evs) =~= acc);
        lemma_walk_sections_prefix(s, p, acc, secs);
    } else {
        let e = evs[0];
        let body = event_body(e);
        let blk = block_spec(body);
        let rest = evs.drop_first();
        let tail = blocks_bytes(rest) + sections_bytes(secs);
        assert(blocks_bytes(evs) + sections_bytes(secs) =~= blk + tail);
        lemma_prefix_split(s, p, blk, tail);
        if m < blk.len() {
            assert(evs.take(0) =~= Seq::<PersistedEnvelope>::empty());
            assert(events_view(evs.take(0)) =~= Seq::<Option<BodyView>>::empty());
            assert(extend_last(acc, evs.take(0)) =~= acc);
            if m > 0 {
                assert(body.len() <= blk.len());
                lemma_block_torn(s, p, body);
            }
        } else {
            assert(event_fits(evs[0]));
            lemma_event_block_at(s, p, e);
            let h = head(MAJOR_ARRAY, 2);
            assert(blk == h + enc_uint(crc32c_of(body) as u64) + (head(MAJOR_BYTES, body.len() as u64)
                + body));
            lemma_at_split(s, p, h + enc_uint(crc32c_of(body) as u64), head(
                MAJOR_BYTES,
                body.len() as u64,
            ) + body);
            lemma_at_split(s, p, h, enc_uint(crc32c_of(body) as u64));
            lemma_head_at(s, p, MAJOR_ARRAY, 2);
            assert(0x80 <= s[p] <= 0x9b);
            let acc2 = push_block(acc, Some(event_view(e)));
            assert forall|j: int| 0 <= j < rest.len() implies event_fits(#[trigger] rest[j]) by {
                assert(rest[j] == evs[j + 1]);
            }
            lemma_walk_blocks_prefix(s, p + blk.len(), acc2, rest, secs);
            let k2 = blocks_within(rest, m - blk.len());
            assert(blocks_within(evs, m) == 1 + k2);
            let last = acc.last();
            assert(acc2.last() == (last.0, last.1.push(Some(event_view(e)))));
            if k2 < rest.len() {
                assert(evs.take(1 + k2 as int) =~= seq![e] + rest.take(k2 as int));
                assert(events_view(evs.take(1 + k2 as int)) =~= seq![Some(event_view(e))] + events_view(
                    rest.take(k2 as int),
                ));
                assert(last.1.push(Some(event_view(e))) + events_view(rest.take(k2 as int))
                    =~= last.1 + events_view(evs.take(1 + k2 as int)));
                assert(extend_last(acc2, rest.take(k2 as int)) =~= extend_last(acc, evs.take(1 + k2 as int)));
            } else {
                assert(events_view(evs) =~= seq![Some(event_view(e))] + events_view(rest));
                assert(last.1.push(Some(event_view(e))) + events_view(rest) =~= last.1 + events_view(evs));
                assert(extend_last(acc2, rest) =~= extend_last(acc, evs));
                assert(blocks_bytes(evs).len() == blk.len() + blocks_bytes(rest).len());
            }
        }
    }
}

proof fn lemma_walk_sections_prefix(
    s: Seq<u8>,
    p: int,
    acc: Seq<SectionView>,
    secs: Seq<(Seq<u8>, Seq<PersistedEnvelope>)>,
)
    requires
        holds_prefix(s, p, sections_bytes(secs)),
        p + sections_bytes(secs).len() <= usize::MAX,
        all_fit(secs),
    ensures
        walk_spec(s, p, acc) == Ok::<Seq<SectionView>, &'static str>(
            acc + sections_view_of(sections_within(secs, s.len() - p)),
        ),
    decreases secs.len(), 0int, 0int,
{
    let m = s.len() - p;
    if secs.len() == 0 {
        assert(sections_view_of(Seq::<(Seq<u8>, Seq<PersistedEnvelope>)>::empty())
            =~= Seq::<SectionView>::empty());
        assert(acc + Seq::<SectionView>::empty() =~= acc);
    } else {
        let id = secs[0].0;
        let evs = secs[0].1;
        let rest = secs.drop_first();
        let hd = heading_spec(id);
        let tail = blocks_bytes(evs) + sections_bytes(rest);
        assert(sections_bytes(secs) =~= hd + tail);
        lemma_prefix_split(s, p, hd, tail);
        assert(id.len() <= u64::MAX) by {
            assert(hd == head(MAJOR_MAP, 1) + enc_uint(0) + enc_bytes(id));
        }
        if m < hd.len() {
            assert(sections_view_of(Seq::<(Seq<u8>, Seq<PersistedEnvelope>)>::empty())
                =~= Seq::<SectionView>::empty());
            assert(acc + Seq::<SectionView>::empty() =~= acc);
            if m > 0 {
                lemma_heading_torn(s, p, id);
            }
        } else {
            lemma_heading_at(s, p, id);
            assert(hd == head(MAJOR_MAP, 1) + enc_uint(0) + bytes_piece(id));
            lemma_at_split(s, p, head(MAJOR_MAP, 1) + enc_uint(0), bytes_piece(id));
            lemma_at_split(s, p, head(MAJOR_MAP, 1), enc_uint(0));
            lemma_head_at(s, p, MAJOR_MAP, 1);
            assert(0xa0 <= s[p] <= 0xbb);
            let acc1 = acc.push((id, Seq::<Option<BodyView>>::empty()));
            assert forall|j: int| 0 <= j < evs.len() implies event_fits(#[trigger] evs[j]) by {
                assert(secs[0].1[j] == evs[j]);
            }
            assert forall|i: int, j: int| 0 <= i < rest.len() && 0 <= j < rest[i].1.len() implies event_fits(#[trigger] rest[i].1[j]) by {
                assert(rest[i] == secs[i + 1]);
            }
            lemma_walk_blocks_prefix(s, p + hd.len(), acc1, evs, rest);
            let m1 = m - hd.len();
            let k = blocks_within(evs, m1);
            if k < evs.len() {
                assert(sections_within(secs, m) == seq![(id, evs.take(k as int))]);
                assert(sections_view_of(seq![(id, evs.take(k as int))]) =~= seq![
                    (id, events_view(evs.take(k as int))),
                ]);
                assert(extend_last(acc1, evs.take(k as int)) =~= acc + seq![
                    (id, events_view(evs.take(k as int))),
                ]);
            } else {
                let later = sections_within(rest, m1 - blocks_bytes(evs).len());
                assert(sections_within(secs, m) == seq![secs[0]] + later);
                assert(sections_view_of(seq![secs[0]] + later) =~= seq![(id, events_view(evs))]
                    + sections_view_of(later));
                assert(extend_last(acc1, evs) =~= acc.push((id, events_view(evs))));
                assert(extend_last(acc1, evs) + sections_view_of(later) =~= acc + (seq![
                    (id, events_view(evs)),
                ] + sections_view_of(later)));
            }
        }
    }
}

/// A chunk torn anywhere after its header is still read without error:
/// cut at any byte `m`, it decodes to exactly the sections whose headings
/// lie wholly before the cut, each with exactly the events whose blocks do.
/// Nothing written in full before the cut is lost, and nothing cut short
/// shows up.
pub proof fn lemma_torn_tail(
    origin: Option<Seq<u8>>,
    secs: Seq<(Seq<u8>, Seq<PersistedEnvelope>)>,
    m: int,
)
    requires
        all_fit(secs),
        chunk_bytes(origin, secs).len() <= usize::MAX,
        header_spec(origin).len() <= m <= chunk_bytes(origin, secs).len(),
    ensures
        chunk_dec(chunk_bytes(origin, secs).take(m)) == Ok::<Seq<SectionView>, &'static str>(
            sections_view_of(sections_within(secs, m - header_spec(origin).len())),
        ),
{
    let full = chunk_bytes(origin, secs);
    let s = full.take(m);
    let h = header_spec(origin);
    let sb = sections_bytes(secs);
    assert(at(s, 0, h)) by {
        assert(s.subrange(0, h.len() as int) =~= h);
    }
    assert(holds_prefix(s, h.len() as int, sb)) by {
        assert(s.subrange(h.len() as int, m) =~= sb.take(m - h.len()));
    }
    lemma_header_at(s, origin);
    lemma_walk_sections_prefix(s, h.len() as int, Seq::empty(), secs);
    assert(Seq::<SectionView>::empty() + sections_view_of(sections_within(secs, m - h.len()))
        =~= sections_view_of(sections_within(secs, m - h.len())));
}

proof fn lemma_blocks_within_all(evs: Seq<PersistedEnvelope>, m: int)
    requires
        m >= blocks_bytes(evs).len(),
    ensures
        blocks_within(evs, m) == evs.len(),
    decreases evs.len(),
{
    if evs.len() > 0 {
        let blk = block_spec(event_body(evs[0]));
        assert(blocks_bytes(evs) == blk + blocks_bytes(evs.drop_first()));
        lemma_blocks_within_all(evs.drop_first(), m - blk.len());
    }
}

proof fn lemma_sections_within_all(secs: Seq<(Seq<u8>, Seq<PersistedEnvelope>)>)
    ensures
        sections_within(secs, sections_bytes(secs).len() as int) == secs,
    decreases secs.len(),
{
    if secs.len() > 0 {
        let hd = heading_spec(secs[0].0);
        let evs = secs[0].1;
        let rest = secs.drop_first();
        assert(sections_bytes(secs) == hd + blocks_bytes(evs) + sections_bytes(rest));
        lemma_blocks_within_all(evs, (blocks_bytes(evs).len() + sections_bytes(rest).len()) as int);
        lemma_sections_within_all(rest);
        assert(seq![secs[0]] + rest =~= secs);
    }
}

/// What the box reads back of a chunk it wrote: decoding the header, the
/// section headings and the blocks gives back every section's stream id
/// and every event's fields, in order — for every chunk whose events are
/// well formed and fit the box's `u32` offsets.
pub proof fn lemma_chunk_round_trip(origin: Option<Seq<u8>>, secs: Seq<(Seq<u8>, Seq<PersistedEnvelope>)>)
    requires
        all_fit(secs),
        chunk_bytes(origin, secs).len() <= usize::MAX,
    ensures
        chunk_dec(chunk_bytes(origin, secs)) == Ok::<Seq<SectionView>, &'static str>(
            sections_view_of(secs),
        ),
{
    let full = chunk_bytes(origin, secs);
    lemma_torn_tail(origin, secs, full.len() as int);
    assert(full.take(full.len() as int) =~= full);
    lemma_sections_within_all(secs);
}

/// The sections as written up to a block boundary: the first `i` sections
/// whole, then section `i`'s heading and its first `n` blocks.
pub open spec fn cut(secs: Seq<(Seq<u8>, Seq<PersistedEnvelope>)>, i: int, n: int) -> Seq<
    (Seq<u8>, Seq<PersistedEnvelope>),
> {
    secs.take(i).push((secs[i].0, secs[i].1.take(n)))
}

/// The bytes after that boundary.
pub open spec fn cut_rest(secs: Seq<(Seq<u8>, Seq<PersistedEnvelope>)>, i: int, n: int) -> Seq<u8> {
    blocks_bytes(secs[i].1.skip(n)) + sections_bytes(secs.skip(i + 1))
}

proof fn lemma_blocks_split(evs: Seq<PersistedEnvelope>, n: int)
    requires
        0 <= n <= evs.len(),
    ensures
        blocks_bytes(evs) =~= blocks_bytes(evs.take(n)) + blocks_bytes(evs.skip(n)),
    decreases n,
{
    if n == 0 {
        assert(evs.take(0) =~= Seq::<PersistedEnvelope>::empty());
        assert(evs.skip(0) =~= evs);
    } else {
        lemma_blocks_split(evs.drop_first(), n - 1);
        assert(evs.take(n).drop_first() =~= evs.drop_first().take(n - 1));
        assert(evs.skip(n) =~= evs.drop_first().skip(n - 1));
        assert(evs.take(n)[0] == evs[0]);
    }
}

proof fn lemma_sections_split(secs: Seq<(Seq<u8>, Seq<PersistedEnvelope>)>, i: int, n: int)
    requires
        0 <= i < secs.len(),
        0 <= n <= secs[i].1.len(),
    ensures
        sections_bytes(secs) =~= sections_bytes(cut(secs, i, n)) + cut_rest(secs, i, n),
    decreases i,
{
    let c = cut(secs, i, n);
    if i == 0 {
        lemma_blocks_split(secs[0].1, n);
        assert(c.drop_first() =~= Seq::<(Seq<u8>, Seq<PersistedEnvelope>)>::empty());
        assert(secs.skip(1) =~= secs.drop_first());
        assert(c[0] == (secs[0].0, secs[0].1.take(n)));
        assert(sections_bytes(c.drop_first()) =~= Seq::<u8>::empty());
        assert(sections_bytes(c) =~= heading_spec(secs[0].0) + blocks_bytes(secs[0].1.take(n)));
        assert(sections_bytes(secs) =~= heading_spec(secs[0].0) + blocks_bytes(secs[0].1)
            + sections_bytes(secs.drop_first()));
    } else {
        let d = secs.drop_first();
        lemma_sections_split(d, i - 1, n);
        assert(c.drop_first() =~= cut(d, i - 1, n));
        assert(c[0] == secs[0]);
        assert(d[i - 1] == secs[i]);
        assert(d.skip(i) =~= secs.skip(i + 1));
        assert(cut_rest(d, i - 1, n) == cut_rest(secs, i, n));
        assert(sections_bytes(c) =~= heading_spec(secs[0].0) + blocks_bytes(secs[0].1)
            + sections_bytes(cut(d, i - 1, n)));
        assert(sections_bytes(secs) =~= heading_spec(secs[0].0) + blocks_bytes(secs[0].1)
            + sections_bytes(d));
    }
}

proof fn lemma_cut_fits(secs: Seq<(Seq<u8>, Seq<PersistedEnvelope>)>, i: int, n: int)
    requires
        all_fit(secs),
        0 <= i < secs.len(),
        0 <= n <= secs[i].1.len(),
    ensures
        all_fit(cut(secs, i, n)),
{
    let c = cut(secs, i, n);
    assert forall|a: int, b: int| 0 <= a < c.len() && 0 <= b < c[a].1.len() implies event_fits(
        #[trigger] c[a].1[b],
    ) by {
        if a < i {
            assert(c[a] == secs[a]);
        } else {
            assert(c[a].1[b] == secs[i].1[b]);
        }
    }
}

/// A chunk cut at any block boundary is itself a valid chunk: its bytes are
/// a prefix of the whole chunk's, and decoding them gives back exactly the
/// sections and events written before the cut — nothing more, nothing lost.
pub proof fn lemma_block_boundary_prefix(
    origin: Option<Seq<u8>>,
    secs: Seq<(Seq<u8>, Seq<PersistedEnvelope>)>,
    i: int,
    n: int,
)
    requires
        all_fit(secs),
        chunk_bytes(origin, secs).len() <= usize::MAX,
        0 <= i < secs.len(),
        0 <= n <= secs[i].1.len(),
    ensures
        chunk_bytes(origin, cut(secs, i, n)).len() <= chunk_bytes(origin, secs).len(),
        chunk_bytes(origin, secs).subrange(0, chunk_bytes(origin, cut(secs, i, n)).len() as int)
            == chunk_bytes(origin, cut(secs, i, n)),
        chunk_dec(chunk_bytes(origin, cut(secs, i, n))) == Ok::<Seq<SectionView>, &'static str>(
            sections_view_of(cut(secs, i, n)),
        ),
{
    let c = cut(secs, i, n);
    lemma_sections_split(secs, i, n);
    assert(chunk_bytes(origin, secs) =~= chunk_bytes(origin, c) + cut_rest(secs, i, n));
    assert(chunk_bytes(origin, secs).subrange(0, chunk_bytes(origin, c).len() as int)
        =~= chunk_bytes(origin, c));
    lemma_cut_fits(secs, i, n);
    lemma_chunk_round_trip(origin, c);
}

proof fn lemma_walk_blocks_step(s: Seq<u8>, p: int, acc: Seq<SectionView>, evs: Seq<PersistedEnvelope>)
    requires
        acc.len() >= 1,
        at(s, p, blocks_bytes(evs)),
        s.len() <= usize::MAX,
        forall|j: int| 0 <= j < evs.len() ==> event_fits(#[trigger] evs[j]),
    ensures
        walk_spec(s, p, acc) == walk_spec(s, p + blocks_bytes(evs).len(), extend_last(acc, evs)),
    decreases evs.len(),
{
    if evs.len() == 0 {
        assert(events_view(evs) =~= Seq::<Option<BodyView>>::empty());
        assert(extend_last(acc, evs) =~= acc);
    } else {
        let e = evs[0];
        let body = event_body(e);
        let blk = block_spec(body);
        let rest = evs.drop_first();
        assert(blocks_bytes(evs) == blk + blocks_bytes(rest));
        lemma_at_split(s, p, blk, blocks_bytes(rest));
        assert(event_fits(evs[0]));
        lemma_event_block_at(s, p, e);
        let h = head(MAJOR_ARRAY, 2);
        let c = enc_uint(crc32c_of(body) as u64);
        assert(blk == h + c + (head(MAJOR_BYTES, body.len() as u64) + body));
        lemma_at_split(s, p, h + c, head(MAJOR_BYTES, body.len() as u64) + body);
        lemma_at_split(s, p, h, c);
        lemma_head_at(s, p, MAJOR_ARRAY, 2);
        assert(0x80 <= s[p] <= 0x9b);
        let acc2 = push_block(acc, Some(event_view(e)));
        assert forall|j: int| 0 <= j < rest.len() implies event_fits(#[trigger] rest[j]) by {
            assert(rest[j] == evs[j + 1]);
        }
        lemma_walk_blocks_step(s, p + blk.len(), acc2, rest);
        let last = acc.last();
        assert(acc2.last() == (last.0, last.1.push(Some(event_view(e)))));
        assert(events_view(evs) =~= seq![Some(event_view(e))] + events_view(rest));
        assert(last.1.push(Some(event_view(e))) + events_view(rest) =~= last.1 + events_view(evs));
        assert(extend_last(acc2, rest) =~= extend_last(acc, evs));
    }
}

proof fn lemma_walk_sections_step(
    s: Seq<u8>,
    p: int,
    acc: Seq<SectionView>,
    secs: Seq<(Seq<u8>, Seq<PersistedEnvelope>)>,
)
    requires
        at(s, p, sections_bytes(secs)),
        s.len() <= usize::MAX,
        all_fit(secs),
    ensures
        walk_spec(s, p, acc) == walk_spec(
            s,
            p + sections_bytes(secs).len(),
            acc + sections_view_of(secs),
        ),
    decreases secs.len(),
{
    if secs.len() == 0 {
        assert(sections_view_of(secs) =~= Seq::<SectionView>::empty());
        assert(acc + sections_view_of(secs) =~= acc);
    } else {
        let id = secs[0].0;
        let evs = secs[0].1;
        let rest = secs.drop_first();
        let hd = heading_spec(id);
        assert(sections_bytes(secs) == hd + blocks_bytes(evs) + sections_bytes(rest));
        lemma_at_split(s, p, hd + blocks_bytes(evs), sections_bytes(rest));
        lemma_at_split(s, p, hd, blocks_bytes(evs));
        assert(id.len() <= u64::MAX) by {
            assert(hd == head(MAJOR_MAP, 1) + enc_uint(0) + enc_bytes(id));
        }
        lemma_heading_at(s, p, id);
        assert(hd == head(MAJOR_MAP, 1) + enc_uint(0) + bytes_piece(id));
        lemma_at_split(s, p, head(MAJOR_MAP, 1) + enc_uint(0), bytes_piece(id));
        lemma_at_split(s, p, head(MAJOR_MAP, 1), enc_uint(0));
        lemma_head_at(s, p, MAJOR_MAP, 1);
        assert(0xa0 <= s[p] <= 0xbb);
        let acc1 = acc.push((id, Seq::<Option<BodyView>>::empty()));
        assert forall|j: int| 0 <= j < evs.len() implies event_fits(#[trigger] evs[j]) by {
            assert(secs[0].1[j] == evs[j]);
        }
        assert forall|a: int, b: int| 0 <= a < rest.len() && 0 <= b < rest[a].1.len() implies event_fits(#[trigger] rest[a].1[b]) by {
            assert(rest[a] == secs[a + 1]);
        }
        lemma_walk_blocks_step(s, p + hd.len(), acc1, evs);
        let acc2 = extend_last(acc1, evs);
        assert(acc2 =~= acc.push((id, events_view(evs))));
        lemma_walk_sections_step(s, p + hd.len() + blocks_bytes(evs).len(), acc2, rest);
        assert(sections_view_of(secs) =~= seq![(id, events_view(evs))] + sections_view_of(rest));
        assert(acc2 + sections_view_of(rest) =~= acc + sections_view_of(secs));
    }
}

proof fn lemma_sections_bytes_push(
    a: Seq<(Seq<u8>, Seq<PersistedEnvelope>)>,
    x: (Seq<u8>, Seq<PersistedEnvelope>),
)
    ensures
        sections_bytes(a.push(x)) =~= sections_bytes(a) + (heading_spec(x.0) + blocks_bytes(x.1)),
    decreases a.len(),
{
    if a.len() == 0 {
        assert(a.push(x).drop_first() =~= Seq::<(Seq<u8>, Seq<PersistedEnvelope>)>::empty());
        assert(a.push(x)[0] == x);
        assert(sections_bytes(a.push(x).drop_first()) =~= Seq::<u8>::empty());
        assert(sections_bytes(a) =~= Seq::<u8>::empty());
        assert(sections_bytes(a.push(x)) =~= heading_spec(x.0) + blocks_bytes(x.1) + Seq::<u8>::empty());
    } else {
        lemma_sections_bytes_push(a.drop_first(), x);
        assert(a.push(x).drop_first() =~= a.drop_first().push(x));
        assert(a.push(x)[0] == a[0]);
        assert(sections_bytes(a.push(x)) =~= heading_spec(a[0].0) + blocks_bytes(a[0].1)
            + sections_bytes(a.drop_first().push(x)));
        assert(sections_bytes(a) =~= heading_spec(a[0].0) + blocks_bytes(a[0].1) + sections_bytes(
            a.drop_first(),
        ));
    }
}

/// The sections as decoded when block `n` of section `i` reads as corrupt.
pub open spec fn with_corrupt_block(
    secs: Seq<(Seq<u8>, Seq<PersistedEnvelope>)>,
    i: int,
    n: int,
) -> Seq<SectionView> {
    sections_view_of(secs).update(i, (secs[i].0, events_view(secs[i].1).update(n, None)))
}

/// Where the body of block `n` of section `i` starts in the chunk.
pub open spec fn body_start(
    origin: Option<Seq<u8>>,
    secs: Seq<(Seq<u8>, Seq<PersistedEnvelope>)>,
    i: int,
    n: int,
) -> int {
    let body = event_body(secs[i].1[n]);
    chunk_bytes(origin, cut(secs, i, n)).len() + block_spec(body).len() - body.len()
}

#[verifier::rlimit(80)]
#[verifier::spinoff_prover]
proof fn lemma_damaged_chunk_layout(
    origin: Option<Seq<u8>>,
    secs: Seq<(Seq<u8>, Seq<PersistedEnvelope>)>,
    i: int,
    n: int,
    j: int,
    v: u8,
)
    requires
        chunk_bytes(origin, secs).len() <= usize::MAX,
        0 <= i < secs.len(),
        0 <= n < secs[i].1.len(),
        0 <= j < event_body(secs[i].1[n]).len(),
        v != event_body(secs[i].1[n])[j],
    ensures
        ({
            let s2 = chunk_bytes(origin, secs).update(body_start(origin, secs, i, n) + j, v);
            let body = event_body(secs[i].1[n]);
            let q = chunk_bytes(origin, cut(secs, i, n)).len() as int;
            let qe = q + block_spec(body).len();
            let rest = blocks_bytes(secs[i].1.skip(n + 1)) + sections_bytes(secs.skip(i + 1));
            &&& s2.len() <= usize::MAX
            &&& at(
                s2,
                0,
                header_spec(origin) + sections_bytes(secs.take(i)) + heading_spec(secs[i].0)
                    + blocks_bytes(secs[i].1.take(n)),
            )
            &&& q == (header_spec(origin) + sections_bytes(secs.take(i)) + heading_spec(secs[i].0)
                + blocks_bytes(secs[i].1.take(n))).len()
            &&& block_dec(s2, q) == BlockOutcome::Corrupt(qe)
            &&& 0x80 <= s2[q] <= 0x9b
            &&& holds_prefix(s2, qe, rest)
            &&& s2.len() == qe + rest.len()
        }),
{
    let id = secs[i].0;
    let evs = secs[i].1;
    let c = cut(secs, i, n);
    let full = chunk_bytes(origin, secs);
    let cb = chunk_bytes(origin, c);
    let body = event_body(evs[n]);
    let blk = block_spec(body);
    let tail_evs = evs.skip(n + 1);
    let later = secs.skip(i + 1);
    let rest = blocks_bytes(tail_evs) + sections_bytes(later);
    lemma_sections_split(secs, i, n);
    assert(evs.skip(n)[0] == evs[n]);
    assert(evs.skip(n).drop_first() =~= tail_evs);
    assert(blocks_bytes(evs.skip(n)) == blk + blocks_bytes(tail_evs));
    assert(full =~= cb + blk + rest);
    let q = cb.len() as int;
    let off = body_start(origin, secs, i, n) + j;
    let s2 = full.update(off, v);
    assert(at(full, q, blk)) by {
        assert(full.subrange(q, q + blk.len()) =~= blk);
    }
    lemma_changed_body_byte_is_corrupt(full, q, body, j, v);
    let h = head(MAJOR_ARRAY, 2);
    assert(blk == h + enc_uint(crc32c_of(body) as u64) + (head(MAJOR_BYTES, body.len() as u64)
        + body));
    lemma_at_split(full, q, h + enc_uint(crc32c_of(body) as u64), head(MAJOR_BYTES, body.len() as u64)
        + body);
    lemma_at_split(full, q, h, enc_uint(crc32c_of(body) as u64));
    lemma_head_at(full, q, MAJOR_ARRAY, 2);
    assert(s2[q] == full[q]);
    let hdr = header_spec(origin);
    let pre = sections_bytes(secs.take(i));
    let hd = heading_spec(id);
    let done = blocks_bytes(evs.take(n));
    assert(c == secs.take(i).push((id, evs.take(n))));
    lemma_sections_bytes_push(secs.take(i), (id, evs.take(n)));
    assert(cb =~= hdr + pre + hd + done);
    assert(s2.subrange(0, q) =~= cb) by {
        assert forall|k: int| 0 <= k < q implies s2.subrange(0, q)[k] == cb[k] by {
            assert(full[k] == cb[k]);
        }
    }
    let qe = q + blk.len();
    assert(s2.subrange(qe, s2.len() as int) =~= rest.take(s2.len() - qe)) by {
        assert forall|k: int| 0 <= k < s2.len() - qe implies s2.subrange(qe, s2.len() as int)[k]
            == rest.take(s2.len() - qe)[k] by {
            assert(full[qe + k] == rest[k]);
        }
    }
}

/// A chunk in which one byte of one block's body changed after it was
/// written still decodes without error: that block reads as corrupt, and
/// every other section and event reads back as written.
#[verifier::rlimit(40)]
#[verifier::spinoff_prover]
pub proof fn lemma_changed_body_byte_in_chunk(
    origin: Option<Seq<u8>>,
    secs: Seq<(Seq<u8>, Seq<PersistedEnvelope>)>,
    i: int,
    n: int,
    j: int,
    v: u8,
)
    requires
        all_fit(secs),
        chunk_bytes(origin, secs).len() <= usize::MAX,
        0 <= i < secs.len(),
        0 <= n < secs[i].1.len(),
        0 <= j < event_body(secs[i].1[n]).len(),
        v != event_body(secs[i].1[n])[j],
    ensures
        chunk_dec(chunk_bytes(origin, secs).update(body_start(origin, secs, i, n) + j, v))
            == Ok::<Seq<SectionView>, &'static str>(with_corrupt_block(secs, i, n)),
{
    let id = secs[i].0;
    let evs = secs[i].1;
    let body = event_body(evs[n]);
    let blk = block_spec(body);
    let tail_evs = evs.skip(n + 1);
    let later = secs.skip(i + 1);
    let rest = blocks_bytes(tail_evs) + sections_bytes(later);
    let s2 = chunk_bytes(origin, secs).update(body_start(origin, secs, i, n) + j, v);
    let hdr = header_spec(origin);
    let pre = sections_bytes(secs.take(i));
    let hd = heading_spec(id);
    let done = blocks_bytes(evs.take(n));
    lemma_damaged_chunk_layout(origin, secs, i, n, j, v);
    let q = (hdr + pre + hd + done).len() as int;
    let qe = q + blk.len();
    lemma_at_split(s2, 0, hdr + pre + hd, done);
    lemma_at_split(s2, 0, hdr + pre, hd);
    lemma_at_split(s2, 0, hdr, pre);
    lemma_header_at(s2, origin);
    lemma_damaged_fits(secs, i, n);
    let p1 = hdr.len() as int;
    let acc1 = sections_view_of(secs.take(i));
    lemma_walk_sections_step(s2, p1, Seq::empty(), secs.take(i));
    assert(Seq::<SectionView>::empty() + acc1 =~= acc1);
    let p2 = p1 + pre.len();
    assert(id.len() <= u64::MAX) by {
        assert(hd == head(MAJOR_MAP, 1) + enc_uint(0) + enc_bytes(id));
    }
    lemma_heading_at(s2, p2, id);
    assert(hd == head(MAJOR_MAP, 1) + enc_uint(0) + bytes_piece(id));
    lemma_at_split(s2, p2, head(MAJOR_MAP, 1) + enc_uint(0), bytes_piece(id));
    lemma_at_split(s2, p2, head(MAJOR_MAP, 1), enc_uint(0));
    lemma_head_at(s2, p2, MAJOR_MAP, 1);
    let acc2 = acc1.push((id, Seq::<Option<BodyView>>::empty()));
    let p3 = p2 + hd.len();
    lemma_walk_blocks_step(s2, p3, acc2, evs.take(n));
    let acc3 = extend_last(acc2, evs.take(n));
    assert(acc3 =~= acc1.push((id, events_view(evs.take(n)))));
    let acc4 = push_block(acc3, None);
    assert(walk_spec(s2, q, acc3) == walk_spec(s2, qe, acc4));
    lemma_walk_blocks_prefix(s2, qe, acc4, tail_evs, later);
    lemma_blocks_within_all(tail_evs, rest.len() as int);
    lemma_sections_within_all(later);
    assert(rest.len() - blocks_bytes(tail_evs).len() == sections_bytes(later).len());
    let evv = events_view(evs.take(n)).push(None) + events_view(tail_evs);
    assert(evv =~= events_view(evs).update(n, None));
    assert(extend_last(acc4, tail_evs) =~= acc1.push((id, evv)));
    assert(secs =~= secs.take(i) + seq![secs[i]] + later);
    assert(sections_view_of(secs) =~= sections_view_of(secs.take(i)) + seq![(id, events_view(evs))]
        + sections_view_of(later));
    assert(extend_last(acc4, tail_evs) + sections_view_of(later) =~= with_corrupt_block(secs, i, n));
}

proof fn lemma_damaged_fits(secs: Seq<(Seq<u8>, Seq<PersistedEnvelope>)>, i: int, n: int)
    requires
        all_fit(secs),
        0 <= i < secs.len(),
        0 <= n < secs[i].1.len(),
    ensures
        all_fit(secs.take(i)),
        all_fit(secs.skip(i + 1)),
        forall|b: int| 0 <= b < secs[i].1.take(n).len() ==> event_fits(#[trigger] secs[i].1.take(n)[b]),
        forall|b: int| 0 <= b < secs[i].1.skip(n + 1).len() ==> event_fits(#[trigger] secs[i].1.skip(n + 1)[b]),
{
    let evs = secs[i].1;
    let later = secs.skip(i + 1);
    assert forall|a: int, b: int| 0 <= a < secs.take(i).len() && 0 <= b < secs.take(i)[a].1.len()
        implies event_fits(#[trigger] secs.take(i)[a].1[b]) by {
        assert(secs.take(i)[a] == secs[a]);
    }
    assert forall|a: int, b: int| 0 <= a < later.len() && 0 <= b < later[a].1.len() implies event_fits(
        #[trigger] later[a].1[b],
    ) by {
        assert(later[a] == secs[i + 1 + a]);
    }
    assert forall|b: int| 0 <= b < evs.take(n).len() implies event_fits(#[trigger] evs.take(n)[b]) by {
        assert(evs.take(n)[b] == secs[i].1[b]);
    }
    assert forall|b: int| 0 <= b < evs.skip(n + 1).len() implies event_fits(#[trigger] evs.skip(n + 1)[b]) by {
        assert(evs.skip(n + 1)[b] == secs[i].1[n + 1 + b]);
    }
}

} // verus!
