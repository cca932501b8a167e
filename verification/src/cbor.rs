//! CBOR serialisation (RFC 8949) and the binary frame.
//!
//! A record is an indefinite-length CBOR map (0xBF ... 0xFF) whose keys are
//! text strings. The frame prefixes it with its length on two bytes, big
//! endian: `[len_hi][len_lo][ ... CBOR ... ]`. A length prefix rather than a
//! delimiter, because CBOR is binary and may contain any byte.
use vstd::prelude::*;
use vstd::string::StringSliceAdditionalSpecFns;
use vstd::string::is_ascii_spec_bytes;
use crate::config::{CBOR_CAP, TX_CAP};
use crate::identity::Identity;
use crate::metrics::{derive_status, status_text, Metrics};

verus! {

/// `bytes` written over `buf` from position `i` on; the rest unchanged.
pub open spec fn splice(buf: Seq<u8>, i: int, bytes: Seq<u8>) -> Seq<u8> {
    buf.take(i) + bytes + buf.skip(i + bytes.len())
}

/// CBOR head of major type `major` with argument `arg`, in shortest form.
pub open spec fn enc_head(major: u8, arg: u32) -> Seq<u8> {
    let mt = major * 32;
    if arg < 24 {
        seq![(mt + arg) as u8]
    } else if arg < 0x100 {
        seq![(mt + 24) as u8, arg as u8]
    } else if arg < 0x1_0000 {
        seq![(mt + 25) as u8, (arg / 0x100) as u8, (arg % 0x100) as u8]
    } else {
        seq![
            (mt + 26) as u8,
            (arg / 0x100_0000) as u8,
            (arg / 0x1_0000 % 0x100) as u8,
            (arg / 0x100 % 0x100) as u8,
            (arg % 0x100) as u8,
        ]
    }
}

/// Encoding of a signed integer: major type 0 for `n >= 0`, else major
/// type 1 with argument `-1 - n`.
pub open spec fn enc_int(n: i32) -> Seq<u8> {
    if n >= 0 {
        enc_head(0, n as u32)
    } else {
        enc_head(1, (-1 - n) as u32)
    }
}

/// Head of a text string of `len` bytes: one byte below 24, else 0x78 and
/// one length byte (the length modulo 256).
pub open spec fn tstr_head(len: nat) -> Seq<u8> {
    if len < 24 {
        seq![(0x60 + len) as u8]
    } else {
        seq![0x78u8, (len % 0x100) as u8]
    }
}

/// Encoding of the text string `s` (major type 3).
pub open spec fn enc_tstr(s: Seq<u8>) -> Seq<u8> {
    tstr_head(s.len()) + s
}

proof fn lemma_splice_then(buf: Seq<u8>, i: int, a: Seq<u8>, b: Seq<u8>)
    requires
        0 <= i,
        i + a.len() + b.len() <= buf.len(),
    ensures
        splice(splice(buf, i, a), i + a.len(), b) == splice(buf, i, a + b),
{
    assert(splice(splice(buf, i, a), i + a.len(), b) =~= splice(buf, i, a + b));
}

proof fn lemma_u32_bytes(v: u32)
    ensures
        (v >> 24) as u8 == (v / 0x100_0000) as u8,
        (v >> 16) as u8 == (v / 0x1_0000 % 0x100) as u8,
        (v >> 8) as u8 == (v / 0x100 % 0x100) as u8,
        v as u8 == (v % 0x100) as u8,
{
    assert((v >> 24) as u8 == (v / 0x100_0000) as u8) by (bit_vector);
    assert((v >> 16) as u8 == (v / 0x1_0000 % 0x100) as u8) by (bit_vector);
    assert((v >> 8) as u8 == (v / 0x100 % 0x100) as u8) by (bit_vector);
    assert(v as u8 == (v % 0x100) as u8) by (bit_vector);
}

/// Writes one byte at `i` and returns the next position.
fn put(buf: &mut [u8], i: usize, b: u8) -> (next: usize)
    requires
        i < old(buf)@.len(),
    ensures
        final(buf)@ == splice(old(buf)@, i as int, seq![b]),
        next == i + 1,
{
    buf[i] = b;
    assert(buf@ =~= splice(old(buf)@, i as int, seq![b]));
    i + 1
}

/// Unsigned integer (major type 0).
fn put_uint(buf: &mut [u8], i: usize, v: u32) -> (next: usize)
    requires
        i + enc_head(0, v).len() <= old(buf)@.len(),
    ensures
        final(buf)@ == splice(old(buf)@, i as int, enc_head(0, v)),
        next == i + enc_head(0, v).len(),
{
    let ghost b0 = buf@;
    let ghost i0 = i as int;
    proof {
        lemma_u32_bytes(v);
    }
    let mut i = i;
    if v < 24 {
        i = put(buf, i, v as u8);
    } else if v < 0x100 {
        i = put(buf, i, 0x18);
        i = put(buf, i, v as u8);
    } else if v < 0x1_0000 {
        i = put(buf, i, 0x19);
        i = put(buf, i, (v >> 8) as u8);
        i = put(buf, i, v as u8);
    } else {
        i = put(buf, i, 0x1A);
        i = put(buf, i, (v >> 24) as u8);
        i = put(buf, i, (v >> 16) as u8);
        i = put(buf, i, (v >> 8) as u8);
        i = put(buf, i, v as u8);
    }
    assert(buf@ =~= splice(b0, i0, enc_head(0, v)));
    i
}

/// Signed integer (major type 1 for negatives, 0 otherwise).
fn put_int(buf: &mut [u8], i: usize, n: i32) -> (next: usize)
    requires
        i + enc_int(n).len() <= old(buf)@.len(),
    ensures
        final(buf)@ == splice(old(buf)@, i as int, enc_int(n)),
        next == i + enc_int(n).len(),
{
    if n >= 0 {
        put_uint(buf, i, n as u32)
    } else {
        // negative: encoded argument m = -1 - n, base 0x20.
        let m = (-1 - n) as u32;
        let ghost b0 = buf@;
        let ghost i0 = i as int;
        proof {
            lemma_u32_bytes(m);
        }
        let mut i = i;
        if m < 24 {
            i = put(buf, i, 0x20 + m as u8);
        } else if m < 0x100 {
            i = put(buf, i, 0x38);
            i = put(buf, i, m as u8);
        } else if m < 0x1_0000 {
            i = put(buf, i, 0x39);
            i = put(buf, i, (m >> 8) as u8);
            i = put(buf, i, m as u8);
        } else {
            i = put(buf, i, 0x3A);
            i = put(buf, i, (m >> 24) as u8);
            i = put(buf, i, (m >> 16) as u8);
            i = put(buf, i, (m >> 8) as u8);
            i = put(buf, i, m as u8);
        }
        assert(buf@ =~= splice(b0, i0, enc_int(n)));
        i
    }
}

/// UTF-8 text string (major type 3).
fn put_tstr(buf: &mut [u8], i: usize, s: &[u8]) -> (next: usize)
    requires
        i + enc_tstr(s@).len() <= old(buf)@.len(),
    ensures
        final(buf)@ == splice(old(buf)@, i as int, enc_tstr(s@)),
        next == i + enc_tstr(s@).len(),
{
    let ghost b0 = buf@;
    let ghost i0 = i as int;
    let len = s.len();
    let mut i = i;
    if len < 24 {
        i = put(buf, i, 0x60 + len as u8);
    } else {
        i = put(buf, i, 0x78);
        proof {
            assert(len as u8 == (len % 0x100) as u8) by (bit_vector);
        }
        i = put(buf, i, #[verifier::truncate] (len as u8));
    }
    proof {
        lemma_splice_then(b0, i0, tstr_head(len as nat), s@);
    }
    let ghost mid = buf@;
    let start = i;
    let mut k: usize = 0;
    while k < len
        invariant
            len == s@.len(),
            start + len <= mid.len(),
            buf@.len() == mid.len(),
            start + len <= buf.len(),
            k <= len,
            buf@ == splice(mid, start as int, s@.take(k as int)),
        decreases len - k,
    {
        buf[start + k] = s[k];
        k += 1;
        assert(buf@ =~= splice(mid, start as int, s@.take(k as int)));
    }
    assert(s@.take(len as int) =~= s@);
    start + len
}

/// Key (text) followed by an unsigned value.
fn kv_u32(buf: &mut [u8], i: usize, k: &[u8], v: u32) -> (next: usize)
    requires
        i + enc_tstr(k@).len() + enc_head(0, v).len() <= old(buf)@.len(),
    ensures
        final(buf)@ == splice(old(buf)@, i as int, enc_tstr(k@) + enc_head(0, v)),
        next == i + enc_tstr(k@).len() + enc_head(0, v).len(),
{
    let ghost b0 = buf@;
    let j = put_tstr(buf, i, k);
    proof {
        lemma_splice_then(b0, i as int, enc_tstr(k@), enc_head(0, v));
    }
    put_uint(buf, j, v)
}

/// Key (text) followed by a signed value.
fn kv_i32(buf: &mut [u8], i: usize, k: &[u8], v: i32) -> (next: usize)
    requires
        i + enc_tstr(k@).len() + enc_int(v).len() <= old(buf)@.len(),
    ensures
        final(buf)@ == splice(old(buf)@, i as int, enc_tstr(k@) + enc_int(v)),
        next == i + enc_tstr(k@).len() + enc_int(v).len(),
{
    let ghost b0 = buf@;
    let j = put_tstr(buf, i, k);
    proof {
        lemma_splice_then(b0, i as int, enc_tstr(k@), enc_int(v));
    }
    put_int(buf, j, v)
}

/// Key (text) followed by a text value.
fn kv_str(buf: &mut [u8], i: usize, k: &[u8], v: &[u8]) -> (next: usize)
    requires
        i + enc_tstr(k@).len() + enc_tstr(v@).len() <= old(buf)@.len(),
    ensures
        final(buf)@ == splice(old(buf)@, i as int, enc_tstr(k@) + enc_tstr(v@)),
        next == i + enc_tstr(k@).len() + enc_tstr(v@).len(),
{
    let ghost b0 = buf@;
    let j = put_tstr(buf, i, k);
    proof {
        lemma_splice_then(b0, i as int, enc_tstr(k@), enc_tstr(v@));
    }
    put_tstr(buf, j, v)
}

/// A CBOR data item of the kinds a record holds.
pub enum CborItem {
    /// Major type 0: the unsigned integer `v`.
    Unsigned(u32),
    /// Major type 1: the negative integer `-1 - a`.
    Negative(u32),
    /// Major type 3: a text string.
    Text(Seq<u8>),
}

/// The integer a numeric item stands for.
pub open spec fn item_int(it: CborItem) -> int {
    match it {
        CborItem::Unsigned(v) => v as int,
        CborItem::Negative(a) => -1 - a,
        CborItem::Text(_) => 0,
    }
}

/// The item that encodes the signed integer `n`.
pub open spec fn int_item(n: i32) -> CborItem {
    if n >= 0 {
        CborItem::Unsigned(n as u32)
    } else {
        CborItem::Negative((-1 - n) as u32)
    }
}

pub open spec fn enc_item(it: CborItem) -> Seq<u8> {
    match it {
        CborItem::Unsigned(v) => enc_head(0, v),
        CborItem::Negative(a) => enc_head(1, a),
        CborItem::Text(s) => enc_tstr(s),
    }
}

/// One map entry: a text key followed by its value.
pub open spec fn enc_entry(e: (Seq<u8>, CborItem)) -> Seq<u8> {
    enc_tstr(e.0) + enc_item(e.1)
}

pub open spec fn enc_entries(es: Seq<(Seq<u8>, CborItem)>) -> Seq<u8>
    decreases es.len(),
{
    if es.len() == 0 {
        Seq::empty()
    } else {
        enc_entry(es[0]) + enc_entries(es.drop_first())
    }
}

/// Indefinite-length map: 0xBF, the entries, then the break byte 0xFF.
pub open spec fn enc_map(es: Seq<(Seq<u8>, CborItem)>) -> Seq<u8> {
    seq![0xBFu8] + enc_entries(es) + seq![0xFFu8]
}

// --- Decoding (the reading side of the same format) ---

/// Reads one CBOR head: (major type, argument, bytes consumed).
#[verifier::opaque]
pub open spec fn dec_head(s: Seq<u8>) -> Option<(u8, u32, int)> {
    if s.len() == 0 {
        None
    } else {
        let major = (s[0] / 32) as u8;
        let info = s[0] % 32;
        if info < 24 {
            Some((major, info as u32, 1))
        } else if info == 24 && s.len() >= 2 {
            Some((major, s[1] as u32, 2))
        } else if info == 25 && s.len() >= 3 {
            Some((major, (s[1] * 0x100 + s[2]) as u32, 3))
        } else if info == 26 && s.len() >= 5 {
            Some(
                (
                    major,
                    (s[1] * 0x100_0000 + s[2] * 0x1_0000 + s[3] * 0x100 + s[4]) as u32,
                    5,
                ),
            )
        } else {
            None
        }
    }
}

/// Reads one item: unsigned, negative or text; (item, bytes consumed).
#[verifier::opaque]
pub open spec fn dec_item(s: Seq<u8>) -> Option<(CborItem, int)> {
    match dec_head(s) {
        None => None,
        Some((major, arg, h)) => {
            if major == 0 {
                Some((CborItem::Unsigned(arg), h))
            } else if major == 1 {
                Some((CborItem::Negative(arg), h))
            } else if major == 3 && h + arg <= s.len() {
                Some((CborItem::Text(s.subrange(h, h + arg)), h + arg))
            } else {
                None
            }
        },
    }
}

/// Reads map entries up to and including the break byte 0xFF.
pub open spec fn dec_entries(s: Seq<u8>) -> Option<(Seq<(Seq<u8>, CborItem)>, int)>
    decreases s.len(),
{
    if s.len() == 0 {
        None
    } else if s[0] == 0xFF {
        Some((Seq::empty(), 1))
    } else {
        match dec_item(s) {
            Some((CborItem::Text(k), n1)) => {
                match dec_item(s.skip(n1)) {
                    Some((v, n2)) => {
                        if 0 < n1 && 0 <= n2 && n1 + n2 <= s.len() {
                            match dec_entries(s.skip(n1 + n2)) {
                                Some((rest, n3)) => Some((seq![(k, v)] + rest, n1 + n2 + n3)),
                                None => None,
                            }
                        } else {
                            None
                        }
                    },
                    None => None,
                }
            },
            _ => None,
        }
    }
}

/// Reads an indefinite-length map: (entries, bytes consumed).
pub open spec fn dec_map(s: Seq<u8>) -> Option<(Seq<(Seq<u8>, CborItem)>, int)> {
    if s.len() > 0 && s[0] == 0xBF {
        match dec_entries(s.skip(1)) {
            Some((es, n)) => Some((es, n + 1)),
            None => None,
        }
    } else {
        None
    }
}

/// Text strings of fewer than 256 bytes, whose head is well-formed CBOR.
pub open spec fn item_in_range(it: CborItem) -> bool {
    match it {
        CborItem::Text(s) => s.len() < 0x100,
        _ => true,
    }
}

pub open spec fn entries_in_range(es: Seq<(Seq<u8>, CborItem)>) -> bool {
    forall|j: int| 0 <= j < es.len() ==> #[trigger] es[j].0.len() < 0x100 && item_in_range(es[j].1)
}

/// A head read back gives the major type and argument it was written with.
pub proof fn lemma_head_roundtrip(major: u8, arg: u32, rest: Seq<u8>)
    requires
        major < 8,
    ensures
        dec_head(enc_head(major, arg) + rest) == Some((major, arg, enc_head(major, arg).len() as int)),
{
    reveal(dec_head);
    let e = enc_head(major, arg);
    let s = e + rest;
    assert(s[0] == e[0]);
    if arg < 24 {
    } else if arg < 0x100 {
        assert(s[1] == e[1]);
    } else if arg < 0x1_0000 {
        assert(s[1] == e[1]);
        assert(s[2] == e[2]);
        assert((arg / 0x100) * 0x100 + arg % 0x100 == arg);
    } else {
        assert(s[1] == e[1]);
        assert(s[2] == e[2]);
        assert(s[3] == e[3]);
        assert(s[4] == e[4]);
        assert((arg / 0x100_0000) * 0x100_0000 + (arg / 0x1_0000 % 0x100) * 0x1_0000 + (arg / 0x100
            % 0x100) * 0x100 + arg % 0x100 == arg) by (nonlinear_arith);
    }
}

/// A text string of fewer than 256 bytes reads back unchanged.
pub proof fn lemma_tstr_roundtrip(t: Seq<u8>, rest: Seq<u8>)
    requires
        t.len() < 0x100,
    ensures
        dec_item(enc_tstr(t) + rest) == Some((CborItem::Text(t), enc_tstr(t).len() as int)),
{
    reveal(dec_item);
    assert(tstr_head(t.len()) == enc_head(3, t.len() as u32));
    lemma_head_roundtrip(3, t.len() as u32, t + rest);
    assert(enc_tstr(t) + rest =~= enc_head(3, t.len() as u32) + (t + rest));
    let h = enc_head(3, t.len() as u32).len() as int;
    assert((enc_tstr(t) + rest).subrange(h, h + t.len()) =~= t);
}

/// Every item in range reads back as itself.
pub proof fn lemma_item_roundtrip(it: CborItem, rest: Seq<u8>)
    requires
        item_in_range(it),
    ensures
        dec_item(enc_item(it) + rest) == Some((it, enc_item(it).len() as int)),
{
    reveal(dec_item);
    match it {
        CborItem::Unsigned(v) => {
            lemma_head_roundtrip(0, v, rest);
        },
        CborItem::Negative(a) => {
            lemma_head_roundtrip(1, a, rest);
        },
        CborItem::Text(t) => {
            lemma_tstr_roundtrip(t, rest);
        },
    }
}

proof fn lemma_entries_in_range_tail(es: Seq<(Seq<u8>, CborItem)>)
    requires
        entries_in_range(es),
        es.len() > 0,
    ensures
        entries_in_range(es.drop_first()),
        es[0].0.len() < 0x100,
        item_in_range(es[0].1),
{
    let tail = es.drop_first();
    assert(es[0].0.len() < 0x100 && item_in_range(es[0].1));
    assert forall|j: int| 0 <= j < tail.len() implies #[trigger] tail[j].0.len() < 0x100
        && item_in_range(tail[j].1) by {
        assert(tail[j] == es[j + 1]);
        assert(es[j + 1].0.len() < 0x100 && item_in_range(es[j + 1].1));
    }
}

/// The entries of a map, read back after their encoding and the break byte,
/// are the entries that were written.
pub proof fn lemma_entries_roundtrip(es: Seq<(Seq<u8>, CborItem)>, rest: Seq<u8>)
    requires
        entries_in_range(es),
    ensures
        dec_entries(enc_entries(es) + seq![0xFFu8] + rest) == Some(
            (es, enc_entries(es).len() + 1int),
        ),
    decreases es.len(),
{
    let s = enc_entries(es) + seq![0xFFu8] + rest;
    if es.len() == 0 {
        assert(s[0] == 0xFF);
        assert(es =~= Seq::<(Seq<u8>, CborItem)>::empty());
    } else {
        let e = es[0];
        let tail = es.drop_first();
        lemma_entries_in_range_tail(es);
        let kt = enc_tstr(e.0);
        let vt = enc_item(e.1);
        let after = enc_entries(tail) + seq![0xFFu8] + rest;
        let n1 = kt.len() as int;
        let n2 = vt.len() as int;
        assert(enc_entries(es) == kt + vt + enc_entries(tail));
        assert(s =~= kt + (vt + after));
        lemma_tstr_roundtrip(e.0, vt + after);
        assert(dec_item(s) == Some((CborItem::Text(e.0), n1)));
        // the key's head byte is never the break byte
        assert(s[0] == kt[0]);
        assert(s[0] != 0xFF);
        assert(s.skip(n1) =~= vt + after);
        lemma_item_roundtrip(e.1, after);
        assert(dec_item(s.skip(n1)) == Some((e.1, n2)));
        assert(s.skip(n1 + n2) =~= after);
        lemma_entries_roundtrip(tail, rest);
        assert(dec_entries(s.skip(n1 + n2)) == Some((tail, enc_entries(tail).len() + 1int)));
        assert(seq![(e.0, e.1)] + tail =~= es);
    }
}

/// What the reading side gets back from a written map: its entries, and the
/// exact number of bytes the map took.
pub proof fn lemma_map_roundtrip(es: Seq<(Seq<u8>, CborItem)>, rest: Seq<u8>)
    requires
        entries_in_range(es),
    ensures
        dec_map(enc_map(es) + rest) == Some((es, enc_map(es).len() as int)),
{
    let s = enc_map(es) + rest;
    assert(s.skip(1) =~= enc_entries(es) + seq![0xFFu8] + rest);
    lemma_entries_roundtrip(es, rest);
}

proof fn lemma_enc_entries_append(a: Seq<(Seq<u8>, CborItem)>, b: Seq<(Seq<u8>, CborItem)>)
    ensures
        enc_entries(a + b) == enc_entries(a) + enc_entries(b),
    decreases a.len(),
{
    if a.len() == 0 {
        assert(a + b =~= b);
        assert(enc_entries(a) + enc_entries(b) =~= enc_entries(b));
    } else {
        assert((a + b).drop_first() =~= a.drop_first() + b);
        assert((a + b)[0] == a[0]);
        lemma_enc_entries_append(a.drop_first(), b);
        assert(enc_entries(a + b) =~= enc_entries(a) + enc_entries(b));
    }
}

proof fn lemma_enc_entries_step(es: Seq<(Seq<u8>, CborItem)>, k: int)
    requires
        0 <= k < es.len(),
    ensures
        enc_entries(es.take(k + 1)) == enc_entries(es.take(k)) + enc_entry(es[k]),
        enc_entries(es.take(k + 1)).len() <= enc_entries(es).len(),
{
    let one = seq![es[k]];
    assert(es.take(k + 1) =~= es.take(k) + one);
    lemma_enc_entries_append(es.take(k), one);
    assert(one.drop_first() =~= Seq::<(Seq<u8>, CborItem)>::empty());
    assert(enc_entries(one.drop_first()) == Seq::<u8>::empty());
    assert(one[0] == es[k]);
    assert(enc_entries(one) =~= enc_entry(es[k]));
    assert(es =~= es.take(k + 1) + es.skip(k + 1));
    lemma_enc_entries_append(es.take(k + 1), es.skip(k + 1));
}

// --- The record ---

/// The value of one record field, as the builder holds it.
enum FieldValue<'a> {
    Unsigned(u32),
    Signed(i32),
    Text(&'a [u8]),
}

/// One record field: its key and its value.
struct Field<'a> {
    key: &'a [u8],
    value: FieldValue<'a>,
}

spec fn field_entry(f: Field) -> (Seq<u8>, CborItem) {
    (
        f.key@,
        match f.value {
            FieldValue::Unsigned(v) => CborItem::Unsigned(v),
            FieldValue::Signed(n) => int_item(n),
            FieldValue::Text(t) => CborItem::Text(t@),
        },
    )
}

/// The record's fields, in order: identity, sequence and time, computing
/// resources, energy, communication, reliability, life cycle and health.
pub open spec fn record_entries(m: Metrics, seq: u32, id: Identity) -> Seq<(Seq<u8>, CborItem)> {
    seq![
        ("node_id".spec_bytes(), CborItem::Unsigned(id.node_id)),
        ("device".spec_bytes(), CborItem::Text(id.device@)),
        ("type".spec_bytes(), CborItem::Text(id.dev_type@)),
        ("os".spec_bytes(), CborItem::Text(id.os@)),
        ("transport".spec_bytes(), CborItem::Text(id.transport@)),
        ("seq".spec_bytes(), CborItem::Unsigned(seq)),
        ("uptime_ms".spec_bytes(), CborItem::Unsigned(m.uptime_ms)),
        ("cpu_usage_pct".spec_bytes(), CborItem::Unsigned(m.cpu_usage_pct)),
        ("free_heap_bytes".spec_bytes(), CborItem::Unsigned(m.free_heap_bytes)),
        ("stack_usage_pct".spec_bytes(), CborItem::Unsigned(m.stack_usage_pct)),
        ("active_threads".spec_bytes(), CborItem::Unsigned(m.active_threads)),
        ("battery_mv".spec_bytes(), CborItem::Unsigned(m.battery_mv)),
        ("energy_proxy".spec_bytes(), CborItem::Unsigned(m.energy_proxy)),
        ("sleep_ratio_pct".spec_bytes(), CborItem::Unsigned(m.sleep_ratio_pct)),
        ("signal_dbm".spec_bytes(), int_item(m.signal_dbm)),
        ("last_send_duration_ms".spec_bytes(), CborItem::Unsigned(m.last_send_duration_ms)),
        ("bytes_tx".spec_bytes(), CborItem::Unsigned(m.bytes_tx)),
        ("bytes_rx".spec_bytes(), CborItem::Unsigned(m.bytes_rx)),
        ("transport_errors".spec_bytes(), CborItem::Unsigned(m.transport_errors)),
        ("coap_retransmissions".spec_bytes(), CborItem::Unsigned(m.coap_retransmissions)),
        ("tx_success_rate".spec_bytes(), CborItem::Unsigned(m.tx_success_rate)),
        ("consecutive_failures".spec_bytes(), CborItem::Unsigned(m.consecutive_failures)),
        ("reset_count".spec_bytes(), CborItem::Unsigned(m.reset_count)),
        ("status".spec_bytes(), CborItem::Text(status_text(m))),
    ]
}

/// The CBOR record of one measurement: an indefinite-length map of the
/// record's fields.
pub open spec fn record_bytes(m: Metrics, seq: u32, id: Identity) -> Seq<u8> {
    enc_map(record_entries(m, seq, id))
}

/// The frame: the record's length on two bytes, big endian, then the record.
pub open spec fn frame_bytes(record: Seq<u8>) -> Seq<u8> {
    seq![(record.len() / 0x100) as u8, (record.len() % 0x100) as u8] + record
}

/// Key and value of one field.
fn put_field(buf: &mut [u8], i: usize, f: &Field) -> (next: usize)
    requires
        i + enc_entry(field_entry(*f)).len() <= old(buf)@.len(),
    ensures
        final(buf)@ == splice(old(buf)@, i as int, enc_entry(field_entry(*f))),
        next == i + enc_entry(field_entry(*f)).len(),
{
    match f.value {
        FieldValue::Unsigned(v) => kv_u32(buf, i, f.key, v),
        FieldValue::Signed(n) => kv_i32(buf, i, f.key, n),
        FieldValue::Text(t) => kv_str(buf, i, f.key, t),
    }
}

fn record_fields<'a>(m: &'a Metrics, seq: u32, id: &'a Identity) -> (fields: [Field<'a>; 24])
    ensures
        fields@.len() == record_entries(*m, seq, *id).len(),
        forall|j: int|
            0 <= j < fields@.len() ==> field_entry(#[trigger] fields@[j]) == record_entries(
                *m,
                seq,
                *id,
            )[j],
{
    let v: [Field<'a>; 24] = [
        // Identity
        Field { key: "node_id".as_bytes(), value: FieldValue::Unsigned(id.node_id) },
        Field { key: "device".as_bytes(), value: FieldValue::Text(id.device.as_bytes()) },
        Field { key: "type".as_bytes(), value: FieldValue::Text(id.dev_type.as_bytes()) },
        Field { key: "os".as_bytes(), value: FieldValue::Text(id.os.as_bytes()) },
        Field { key: "transport".as_bytes(), value: FieldValue::Text(id.transport.as_bytes()) },
        // Sequence / time
        Field { key: "seq".as_bytes(), value: FieldValue::Unsigned(seq) },
        Field { key: "uptime_ms".as_bytes(), value: FieldValue::Unsigned(m.uptime_ms) },
        // Computing resources
        Field { key: "cpu_usage_pct".as_bytes(), value: FieldValue::Unsigned(m.cpu_usage_pct) },
        Field {
            key: "free_heap_bytes".as_bytes(),
            value: FieldValue::Unsigned(m.free_heap_bytes),
        },
        Field {
            key: "stack_usage_pct".as_bytes(),
            value: FieldValue::Unsigned(m.stack_usage_pct),
        },
        Field { key: "active_threads".as_bytes(), value: FieldValue::Unsigned(m.active_threads) },
        // Energy
        Field { key: "battery_mv".as_bytes(), value: FieldValue::Unsigned(m.battery_mv) },
        Field { key: "energy_proxy".as_bytes(), value: FieldValue::Unsigned(m.energy_proxy) },
        Field {
            key: "sleep_ratio_pct".as_bytes(),
            value: FieldValue::Unsigned(m.sleep_ratio_pct),
        },
        // Communication / network
        Field { key: "signal_dbm".as_bytes(), value: FieldValue::Signed(m.signal_dbm) },
        Field {
            key: "last_send_duration_ms".as_bytes(),
            value: FieldValue::Unsigned(m.last_send_duration_ms),
        },
        Field { key: "bytes_tx".as_bytes(), value: FieldValue::Unsigned(m.bytes_tx) },
        Field { key: "bytes_rx".as_bytes(), value: FieldValue::Unsigned(m.bytes_rx) },
        Field {
            key: "transport_errors".as_bytes(),
            value: FieldValue::Unsigned(m.transport_errors),
        },
        Field {
            key: "coap_retransmissions".as_bytes(),
            value: FieldValue::Unsigned(m.coap_retransmissions),
        },
        // Reliability
        Field {
            key: "tx_success_rate".as_bytes(),
            value: FieldValue::Unsigned(m.tx_success_rate),
        },
        Field {
            key: "consecutive_failures".as_bytes(),
            value: FieldValue::Unsigned(m.consecutive_failures),
        },
        // Life cycle + health
        Field { key: "reset_count".as_bytes(), value: FieldValue::Unsigned(m.reset_count) },
        Field { key: "status".as_bytes(), value: FieldValue::Text(derive_status(m)) },
    ];
    proof {
        let es = record_entries(*m, seq, *id);
        assert forall|j: int| 0 <= j < v@.len() implies field_entry(#[trigger] v@[j]) == es[j] by {
        }
    }
    v
}

/// Builds the CBOR record into `buf` from position `at` and returns the
/// position right after it.
fn build_record(buf: &mut [u8], at: usize, m: &Metrics, seq: u32, id: &Identity) -> (end: usize)
    requires
        at + record_bytes(*m, seq, *id).len() <= old(buf)@.len(),
    ensures
        final(buf)@ == splice(old(buf)@, at as int, record_bytes(*m, seq, *id)),
        end == at + record_bytes(*m, seq, *id).len(),
{
    let ghost es = record_entries(*m, seq, *id);
    let ghost b0 = buf@;
    let fields = record_fields(m, seq, id);
    let fields = fields.as_slice();
    // indefinite-length map (0xBF ... 0xFF): no count to keep.
    let mut i = put(buf, at, 0xBF);
    let mut k: usize = 0;
    proof {
        assert(es.take(0) =~= Seq::<(Seq<u8>, CborItem)>::empty());
        assert(seq![0xBFu8] + enc_entries(es.take(0)) =~= seq![0xBFu8]);
    }
    while k < fields.len()
        invariant
            fields@.len() == es.len(),
            forall|j: int| 0 <= j < fields@.len() ==> field_entry(#[trigger] fields@[j]) == es[j],
            k <= fields@.len(),
            at + enc_map(es).len() <= b0.len(),
            buf@.len() == b0.len(),
            buf@ == splice(b0, at as int, seq![0xBFu8] + enc_entries(es.take(k as int))),
            i == at + 1 + enc_entries(es.take(k as int)).len(),
        decreases fields.len() - k,
    {
        proof {
            lemma_enc_entries_step(es, k as int);
        }
        i = put_field(buf, i, &fields[k]);
        proof {
            lemma_splice_then(
                b0,
                at as int,
                seq![0xBFu8] + enc_entries(es.take(k as int)),
                enc_entry(es[k as int]),
            );
            assert(seq![0xBFu8] + enc_entries(es.take(k as int)) + enc_entry(es[k as int])
                =~= seq![0xBFu8] + enc_entries(es.take(k + 1)));
        }
        k += 1;
    }
    proof {
        assert(es.take(k as int) =~= es);
        lemma_splice_then(b0, at as int, seq![0xBFu8] + enc_entries(es), seq![0xFFu8]);
    }
    // end of the indefinite map
    i = put(buf, i, 0xFF);
    i
}

/// Builds the complete frame `[len(2, BE)][CBOR]` of one measurement at
/// the start of `tx`, the buffer handed to the transport, and returns the
/// frame's length.
pub fn build_frame(tx: &mut [u8], m: &Metrics, seq: u32, id: &Identity) -> (len: usize)
    requires
        record_bytes(*m, seq, *id).len() <= CBOR_CAP,
        old(tx)@.len() >= TX_CAP,
    ensures
        final(tx)@ == splice(old(tx)@, 0, frame_bytes(record_bytes(*m, seq, *id))),
        len == frame_bytes(record_bytes(*m, seq, *id)).len(),
{
    let ghost t0 = tx@;
    let ghost rec = record_bytes(*m, seq, *id);
    let end = build_record(tx, 2, m, seq, id);
    let clen = end - 2;
    proof {
        assert((clen >> 8) as u8 == (clen / 0x100) as u8) by (bit_vector)
            requires clen <= 512;
        assert(clen as u8 == (clen % 0x100) as u8) by (bit_vector);
    }
    tx[0] = (clen >> 8) as u8;
    tx[1] = #[verifier::truncate] (clen as u8);
    assert(tx@ =~= splice(t0, 0, frame_bytes(rec)));
    clen + 2
}

/// The byte lengths of the record's keys and status texts.
proof fn lemma_literal_lengths()
    ensures
        "node_id".spec_bytes().len() == 7,
        "device".spec_bytes().len() == 6,
        "type".spec_bytes().len() == 4,
        "os".spec_bytes().len() == 2,
        "transport".spec_bytes().len() == 9,
        "seq".spec_bytes().len() == 3,
        "uptime_ms".spec_bytes().len() == 9,
        "cpu_usage_pct".spec_bytes().len() == 13,
        "free_heap_bytes".spec_bytes().len() == 15,
        "stack_usage_pct".spec_bytes().len() == 15,
        "active_threads".spec_bytes().len() == 14,
        "battery_mv".spec_bytes().len() == 10,
        "energy_proxy".spec_bytes().len() == 12,
        "sleep_ratio_pct".spec_bytes().len() == 15,
        "signal_dbm".spec_bytes().len() == 10,
        "last_send_duration_ms".spec_bytes().len() == 21,
        "bytes_tx".spec_bytes().len() == 8,
        "bytes_rx".spec_bytes().len() == 8,
        "transport_errors".spec_bytes().len() == 16,
        "coap_retransmissions".spec_bytes().len() == 20,
        "tx_success_rate".spec_bytes().len() == 15,
        "consecutive_failures".spec_bytes().len() == 20,
        "reset_count".spec_bytes().len() == 11,
        "status".spec_bytes().len() == 6,
        "cpu_saturated".spec_bytes().len() == 13,
        "heap_low".spec_bytes().len() == 8,
        "link_down".spec_bytes().len() == 9,
        "net_degraded".spec_bytes().len() == 12,
        "stack_overflow_risk".spec_bytes().len() == 19,
        "ok".spec_bytes().len() == 2,
{
    reveal_strlit("node_id");
    is_ascii_spec_bytes("node_id");
    assert("node_id".spec_bytes().len() == 7);
    reveal_strlit("device");
    is_ascii_spec_bytes("device");
    assert("device".spec_bytes().len() == 6);
    reveal_strlit("type");
    is_ascii_spec_bytes("type");
    assert("type".spec_bytes().len() == 4);
    reveal_strlit("os");
    is_ascii_spec_bytes("os");
    assert("os".spec_bytes().len() == 2);
    reveal_strlit("transport");
    is_ascii_spec_bytes("transport");
    assert("transport".spec_bytes().len() == 9);
    reveal_strlit("seq");
    is_ascii_spec_bytes("seq");
    assert("seq".spec_bytes().len() == 3);
    reveal_strlit("uptime_ms");
    is_ascii_spec_bytes("uptime_ms");
    assert("uptime_ms".spec_bytes().len() == 9);
    reveal_strlit("cpu_usage_pct");
    is_ascii_spec_bytes("cpu_usage_pct");
    assert("cpu_usage_pct".spec_bytes().len() == 13);
    reveal_strlit("free_heap_bytes");
    is_ascii_spec_bytes("free_heap_bytes");
    assert("free_heap_bytes".spec_bytes().len() == 15);
    reveal_strlit("stack_usage_pct");
    is_ascii_spec_bytes("stack_usage_pct");
    assert("stack_usage_pct".spec_bytes().len() == 15);
    reveal_strlit("active_threads");
    is_ascii_spec_bytes("active_threads");
    assert("active_threads".spec_bytes().len() == 14);
    reveal_strlit("battery_mv");
    is_ascii_spec_bytes("battery_mv");
    assert("battery_mv".spec_bytes().len() == 10);
    reveal_strlit("energy_proxy");
    is_ascii_spec_bytes("energy_proxy");
    assert("energy_proxy".spec_bytes().len() == 12);
    reveal_strlit("sleep_ratio_pct");
    is_ascii_spec_bytes("sleep_ratio_pct");
    assert("sleep_ratio_pct".spec_bytes().len() == 15);
    reveal_strlit("signal_dbm");
    is_ascii_spec_bytes("signal_dbm");
    assert("signal_dbm".spec_bytes().len() == 10);
    reveal_strlit("last_send_duration_ms");
    is_ascii_spec_bytes("last_send_duration_ms");
    assert("last_send_duration_ms".spec_bytes().len() == 21);
    reveal_strlit("bytes_tx");
    is_ascii_spec_bytes("bytes_tx");
    assert("bytes_tx".spec_bytes().len() == 8);
    reveal_strlit("bytes_rx");
    is_ascii_spec_bytes("bytes_rx");
    assert("bytes_rx".spec_bytes().len() == 8);
    reveal_strlit("transport_errors");
    is_ascii_spec_bytes("transport_errors");
    assert("transport_errors".spec_bytes().len() == 16);
    reveal_strlit("coap_retransmissions");
    is_ascii_spec_bytes("coap_retransmissions");
    assert("coap_retransmissions".spec_bytes().len() == 20);
    reveal_strlit("tx_success_rate");
    is_ascii_spec_bytes("tx_success_rate");
    assert("tx_success_rate".spec_bytes().len() == 15);
    reveal_strlit("consecutive_failures");
    is_ascii_spec_bytes("consecutive_failures");
    assert("consecutive_failures".spec_bytes().len() == 20);
    reveal_strlit("reset_count");
    is_ascii_spec_bytes("reset_count");
    assert("reset_count".spec_bytes().len() == 11);
    reveal_strlit("status");
    is_ascii_spec_bytes("status");
    assert("status".spec_bytes().len() == 6);
    reveal_strlit("cpu_saturated");
    is_ascii_spec_bytes("cpu_saturated");
    assert("cpu_saturated".spec_bytes().len() == 13);
    reveal_strlit("heap_low");
    is_ascii_spec_bytes("heap_low");
    assert("heap_low".spec_bytes().len() == 8);
    reveal_strlit("link_down");
    is_ascii_spec_bytes("link_down");
    assert("link_down".spec_bytes().len() == 9);
    reveal_strlit("net_degraded");
    is_ascii_spec_bytes("net_degraded");
    assert("net_degraded".spec_bytes().len() == 12);
    reveal_strlit("stack_overflow_risk");
    is_ascii_spec_bytes("stack_overflow_risk");
    assert("stack_overflow_risk".spec_bytes().len() == 19);
    reveal_strlit("ok");
    is_ascii_spec_bytes("ok");
    assert("ok".spec_bytes().len() == 2);
}

/// Every key and status text of a record is shorter than 24 bytes.
proof fn lemma_status_text_short(m: Metrics)
    ensures
        status_text(m).len() < 24,
{
    lemma_literal_lengths();
}

/// A record whose identity strings are shorter than 256 bytes holds only
/// items that read back as themselves.
pub proof fn lemma_record_in_range(m: Metrics, seq: u32, id: Identity)
    requires
        id.device@.len() < 0x100,
        id.dev_type@.len() < 0x100,
        id.os@.len() < 0x100,
        id.transport@.len() < 0x100,
    ensures
        entries_in_range(record_entries(m, seq, id)),
{
    lemma_literal_lengths();
    lemma_status_text_short(m);
    let es = record_entries(m, seq, id);
    assert forall|j: int| 0 <= j < es.len() implies #[trigger] es[j].0.len() < 0x100
        && item_in_range(es[j].1) by {
    }
}

/// What the server reads from a frame: two bytes of length, big endian,
/// equal to the number of bytes that follow, which decode as a CBOR map
/// holding exactly the record's fields.
pub proof fn lemma_frame_roundtrip(m: Metrics, seq: u32, id: Identity)
    requires
        id.device@.len() < 0x100,
        id.dev_type@.len() < 0x100,
        id.os@.len() < 0x100,
        id.transport@.len() < 0x100,
        record_bytes(m, seq, id).len() <= CBOR_CAP,
    ensures
        ({
            let f = frame_bytes(record_bytes(m, seq, id));
            &&& f[0] * 0x100 + f[1] == f.len() - 2
            &&& dec_map(f.skip(2)) == Some((record_entries(m, seq, id), f.len() - 2))
        }),
{
    let es = record_entries(m, seq, id);
    let r = record_bytes(m, seq, id);
    let f = frame_bytes(r);
    lemma_record_in_range(m, seq, id);
    lemma_map_roundtrip(es, Seq::empty());
    assert(r + Seq::<u8>::empty() =~= r);
    assert(f.skip(2) =~= r);
}

spec fn entry_len_bound(e: (Seq<u8>, CborItem)) -> int {
    let v: int = match e.1 {
        CborItem::Text(t) => 2 + t.len() as int,
        _ => 5int,
    };
    1 + e.0.len() + v
}

spec fn bound_sum(es: Seq<(Seq<u8>, CborItem)>, k: int) -> int
    decreases k,
{
    if k <= 0 {
        0
    } else {
        bound_sum(es, k - 1) + entry_len_bound(es[k - 1])
    }
}

proof fn lemma_entries_len_bound(es: Seq<(Seq<u8>, CborItem)>, k: int)
    requires
        0 <= k <= es.len(),
        forall|j: int| 0 <= j < es.len() ==> #[trigger] es[j].0.len() < 24,
    ensures
        enc_entries(es.take(k)).len() <= bound_sum(es, k),
    decreases k,
{
    if k == 0 {
        assert(es.take(0) =~= Seq::<(Seq<u8>, CborItem)>::empty());
    } else {
        lemma_entries_len_bound(es, k - 1);
        lemma_enc_entries_step(es, k - 1);
        assert(es[k - 1].0.len() < 24);
    }
}

/// With identity strings shorter than 24 bytes, a record always fits the
/// CBOR buffer.
pub proof fn lemma_record_fits(m: Metrics, seq: u32, id: Identity)
    requires
        id.device@.len() < 24,
        id.dev_type@.len() < 24,
        id.os@.len() < 24,
        id.transport@.len() < 24,
    ensures
        record_bytes(m, seq, id).len() <= CBOR_CAP,
{
    let es = record_entries(m, seq, id);
    lemma_literal_lengths();
    lemma_status_text_short(m);
    assert forall|j: int| 0 <= j < es.len() implies #[trigger] es[j].0.len() < 24 by {}
    lemma_entries_len_bound(es, 24);
    assert(es.take(24) =~= es);
    reveal_with_fuel(bound_sum, 25);
    assert(bound_sum(es, 24) <= 510);
}

/// Length of a head with argument `v`, whatever its major type.
fn head_len(v: u32) -> (n: usize)
    ensures
        n == enc_head(0, v).len(),
        n == enc_head(1, v).len(),
{
    if v < 24 {
        1
    } else if v < 0x100 {
        2
    } else if v < 0x1_0000 {
        3
    } else {
        5
    }
}

/// Length of one field's encoding, when its key and text are at most
/// `CBOR_CAP` bytes long.
fn field_len(f: &Field) -> (n: Option<usize>)
    ensures
        n matches Some(l) ==> l == enc_entry(field_entry(*f)).len() && l <= 2 * CBOR_CAP + 9,
        n is None ==> enc_entry(field_entry(*f)).len() > CBOR_CAP,
{
    let klen = f.key.len();
    if klen > CBOR_CAP {
        return None;
    }
    let khead: usize = if klen < 24 { 1 } else { 2 };
    let vlen: usize = match f.value {
        FieldValue::Unsigned(v) => head_len(v),
        FieldValue::Signed(n) => {
            if n >= 0 {
                head_len(n as u32)
            } else {
                head_len((-1 - n) as u32)
            }
        },
        FieldValue::Text(t) => {
            if t.len() > CBOR_CAP {
                return None;
            }
            (if t.len() < 24 { 1 } else { 2 }) + t.len()
        },
    };
    Some(khead + klen + vlen)
}

/// Whether the map of these fields fits the CBOR buffer.
fn fields_fit(fields: &[Field], Ghost(es): Ghost<Seq<(Seq<u8>, CborItem)>>) -> (b: bool)
    requires
        fields@.len() == es.len(),
        forall|j: int| 0 <= j < fields@.len() ==> field_entry(#[trigger] fields@[j]) == es[j],
    ensures
        b == (enc_map(es).len() <= CBOR_CAP),
{
    let mut total: usize = 1;
    let mut k: usize = 0;
    proof {
        assert(es.take(0) =~= Seq::<(Seq<u8>, CborItem)>::empty());
    }
    while k < fields.len()
        invariant
            fields@.len() == es.len(),
            forall|j: int| 0 <= j < fields@.len() ==> field_entry(#[trigger] fields@[j]) == es[j],
            k <= fields@.len(),
            total == 1 + enc_entries(es.take(k as int)).len(),
            total <= CBOR_CAP,
        decreases fields.len() - k,
    {
        proof {
            lemma_enc_entries_step(es, k as int);
        }
        let fl = field_len(&fields[k]);
        assert(field_entry(fields@[k as int]) == es[k as int]);
        if fl.is_none() {
            return false;
        }
        let l = fl.unwrap();
        if total + l > CBOR_CAP {
            return false;
        }
        total = total + l;
        k += 1;
    }
    proof {
        assert(es.take(k as int) =~= es);
    }
    total + 1 <= CBOR_CAP
}

/// Whether the record of this measurement fits the CBOR buffer.
pub fn record_fits(m: &Metrics, seq: u32, id: &Identity) -> (b: bool)
    ensures
        b == (record_bytes(*m, seq, *id).len() <= CBOR_CAP),
{
    let fields = record_fields(m, seq, id);
    fields_fit(fields.as_slice(), Ghost(record_entries(*m, seq, *id)))
}
/// A non-negative signed integer is encoded exactly as the unsigned integer
/// of the same value (major type 0).
pub proof fn lemma_nonnegative_int_is_unsigned(n: i32)
    requires
        n >= 0,
    ensures
        enc_int(n) == enc_head(0, n as u32),
{
}

/// The largest argument, plus one, that a head of `len` bytes can hold.
pub open spec fn head_capacity(len: nat) -> nat {
    if len == 1 {
        24
    } else if len == 2 {
        0x100
    } else if len == 3 {
        0x1_0000
    } else {
        0x1_0000_0000
    }
}

/// The head is in shortest form: it holds its argument, and no shorter head
/// could.
pub proof fn lemma_head_shortest(major: u8, v: u32)
    ensures
        enc_head(major, v).len() == 1 || enc_head(major, v).len() == 2 || enc_head(major, v).len()
            == 3 || enc_head(major, v).len() == 5,
        v < head_capacity(enc_head(major, v).len()),
        forall|l: nat|
            (l == 1 || l == 2 || l == 3 || l == 5) && l < enc_head(major, v).len() ==> v
                >= #[trigger] head_capacity(l),
{
}

/// A larger argument never gets a shorter head.
pub proof fn lemma_head_len_monotone(major: u8, v1: u32, v2: u32)
    requires
        v1 <= v2,
    ensures
        enc_head(major, v1).len() <= enc_head(major, v2).len(),
{
}

/// Each measurement field is carried under its own key, in the record's
/// order: identity, sequence and time, computing resources, energy,
/// communication, reliability, life cycle and health; signal_dbm as a CBOR
/// integer of the same value, negative ones as major type 1.
pub proof fn lemma_record_fields(m: Metrics, seq: u32, id: Identity)
    ensures
        ({
            let es = record_entries(m, seq, id);
            &&& es.len() == 24
            &&& es[0].0 == "node_id".spec_bytes()
            &&& es[0].1 == CborItem::Unsigned(id.node_id)
            &&& es[1].0 == "device".spec_bytes()
            &&& es[1].1 == CborItem::Text(id.device@)
            &&& es[2].0 == "type".spec_bytes()
            &&& es[2].1 == CborItem::Text(id.dev_type@)
            &&& es[3].0 == "os".spec_bytes()
            &&& es[3].1 == CborItem::Text(id.os@)
            &&& es[4].0 == "transport".spec_bytes()
            &&& es[4].1 == CborItem::Text(id.transport@)
            &&& es[5].0 == "seq".spec_bytes()
            &&& es[5].1 == CborItem::Unsigned(seq)
            &&& es[6].0 == "uptime_ms".spec_bytes()
            &&& es[6].1 == CborItem::Unsigned(m.uptime_ms)
            &&& es[7].0 == "cpu_usage_pct".spec_bytes()
            &&& es[7].1 == CborItem::Unsigned(m.cpu_usage_pct)
            &&& es[8].0 == "free_heap_bytes".spec_bytes()
            &&& es[8].1 == CborItem::Unsigned(m.free_heap_bytes)
            &&& es[9].0 == "stack_usage_pct".spec_bytes()
            &&& es[9].1 == CborItem::Unsigned(m.stack_usage_pct)
            &&& es[10].0 == "active_threads".spec_bytes()
            &&& es[10].1 == CborItem::Unsigned(m.active_threads)
            &&& es[11].0 == "battery_mv".spec_bytes()
            &&& es[11].1 == CborItem::Unsigned(m.battery_mv)
            &&& es[12].0 == "energy_proxy".spec_bytes()
            &&& es[12].1 == CborItem::Unsigned(m.energy_proxy)
            &&& es[13].0 == "sleep_ratio_pct".spec_bytes()
            &&& es[13].1 == CborItem::Unsigned(m.sleep_ratio_pct)
            &&& es[14].0 == "signal_dbm".spec_bytes()
            &&& !(es[14].1 is Text) && item_int(es[14].1) == m.signal_dbm
            &&& es[14].1 is Negative <==> m.signal_dbm < 0
            &&& es[15].0 == "last_send_duration_ms".spec_bytes()
            &&& es[15].1 == CborItem::Unsigned(m.last_send_duration_ms)
            &&& es[16].0 == "bytes_tx".spec_bytes()
            &&& es[16].1 == CborItem::Unsigned(m.bytes_tx)
            &&& es[17].0 == "bytes_rx".spec_bytes()
            &&& es[17].1 == CborItem::Unsigned(m.bytes_rx)
            &&& es[18].0 == "transport_errors".spec_bytes()
            &&& es[18].1 == CborItem::Unsigned(m.transport_errors)
            &&& es[19].0 == "coap_retransmissions".spec_bytes()
            &&& es[19].1 == CborItem::Unsigned(m.coap_retransmissions)
            &&& es[20].0 == "tx_success_rate".spec_bytes()
            &&& es[20].1 == CborItem::Unsigned(m.tx_success_rate)
            &&& es[21].0 == "consecutive_failures".spec_bytes()
            &&& es[21].1 == CborItem::Unsigned(m.consecutive_failures)
            &&& es[22].0 == "reset_count".spec_bytes()
            &&& es[22].1 == CborItem::Unsigned(m.reset_count)
            &&& es[23].0 == "status".spec_bytes()
            &&& es[23].1 == CborItem::Text(status_text(m))
        }),
{
}

} // verus!
