//! Model files as they are written, and what is read of them.

use vstd::prelude::*;
use vstd::utf8::*;

use crate::inference::gguf::{
    aligned_position, alignment_of, dims_at, metadata_at, parsed_file, tensor_at, tensors_at, text_at, u16_at, u32_at,
    u64_at, u8_at, value_at, values_at, GgmlType, GgufView, MetaView, TensorView,
};
use crate::inference::tensor::{weights_of, Weight};
use crate::inference::transformer::tensor_weights;
use crate::text_map::{
    keys_ordered, law_get_after_put, lemma_put_ordered, map_get, map_put,
};

verus! {

// ---------------------------------------------------------------------------
// Numbers and texts
// ---------------------------------------------------------------------------

/// A number in so many bytes, the lowest one first.
pub open spec fn little(v: nat, bytes: nat) -> Seq<u8>
    decreases bytes,
{
    if bytes == 0 {
        Seq::empty()
    } else {
        seq![(v % 256) as u8] + little(v / 256, (bytes - 1) as nat)
    }
}

/// A text: the number of its bytes, and the bytes.
pub open spec fn text_bytes(s: Seq<char>) -> Seq<u8> {
    little(encode_utf8(s).len(), 8) + encode_utf8(s)
}

/// The bytes stand in the data from a position on.
pub open spec fn stands_at(d: Seq<u8>, p: int, b: Seq<u8>) -> bool {
    &&& 0 <= p
    &&& p + b.len() <= d.len()
    &&& forall|i: int| 0 <= i < b.len() ==> d[p + i] == #[trigger] b[i]
}

proof fn lemma_stands_parts(d: Seq<u8>, p: int, a: Seq<u8>, b: Seq<u8>)
    requires
        stands_at(d, p, a + b),
    ensures
        stands_at(d, p, a),
        stands_at(d, p + a.len(), b),
{
    let ab = a + b;
    assert forall|i: int| 0 <= i < a.len() implies d[p + i] == #[trigger] a[i] by {
        assert(ab[i] == a[i]);
    }
    assert forall|i: int| 0 <= i < b.len() implies d[p + a.len() + i] == #[trigger] b[i] by {
        assert(ab[a.len() + i] == b[i]);
        assert(d[p + (a.len() + i)] == ab[a.len() + i]);
    }
}

proof fn lemma_little_len(v: nat, bytes: nat)
    ensures
        little(v, bytes).len() == bytes,
    decreases bytes,
{
    if bytes > 0 {
        lemma_little_len(v / 256, (bytes - 1) as nat);
    }
}

proof fn lemma_little_head(d: Seq<u8>, p: int, v: nat, bytes: nat)
    requires
        stands_at(d, p, little(v, bytes)),
        bytes > 0,
    ensures
        d[p] == v % 256,
        stands_at(d, p + 1, little(v / 256, (bytes - 1) as nat)),
{
    let one = seq![(v % 256) as u8];
    lemma_stands_parts(d, p, one, little(v / 256, (bytes - 1) as nat));
    assert(d[p + 0] == one[0]);
}

/// Numbers are read as they were written, the lowest byte first.
pub proof fn law_numbers_are_read(d: Seq<u8>, p: int, v: nat)
    ensures
        v < 0x100 && stands_at(d, p, little(v, 1)) ==> u8_at(d, p) == Some(v as u8),
        v < 0x1_0000 && stands_at(d, p, little(v, 2)) ==> u16_at(d, p) == Some(v as u16),
        v < 0x1_0000_0000 && stands_at(d, p, little(v, 4)) ==> u32_at(d, p) == Some(v as u32),
        v < 0x1_0000_0000_0000_0000 && stands_at(d, p, little(v, 8)) ==> u64_at(d, p) == Some(v as u64),
{
    lemma_little_len(v, 1);
    lemma_little_len(v, 2);
    lemma_little_len(v, 4);
    lemma_little_len(v, 8);
    if stands_at(d, p, little(v, 1)) {
        lemma_little_head(d, p, v, 1);
    }
    if stands_at(d, p, little(v, 2)) {
        lemma_little_head(d, p, v, 2);
        lemma_little_head(d, p + 1, v / 256, 1);
    }
    if stands_at(d, p, little(v, 4)) {
        lemma_little_four(d, p, v, 4);
    }
    if stands_at(d, p, little(v, 8)) {
        lemma_little_four(d, p, v, 8);
        lemma_little_four(d, p + 4, v / 0x1_0000_0000, 4);
    }
}

proof fn lemma_little_four(d: Seq<u8>, p: int, v: nat, bytes: nat)
    requires
        stands_at(d, p, little(v, bytes)),
        bytes >= 4,
    ensures
        d[p] + d[p + 1] * 0x100 + d[p + 2] * 0x1_0000 + d[p + 3] * 0x100_0000 == v % 0x1_0000_0000,
        stands_at(d, p + 4, little(v / 0x1_0000_0000, (bytes - 4) as nat)),
{
    lemma_little_head(d, p, v, bytes);
    lemma_little_head(d, p + 1, v / 256, (bytes - 1) as nat);
    lemma_little_head(d, p + 2, v / 256 / 256, (bytes - 2) as nat);
    lemma_little_head(d, p + 3, v / 256 / 256 / 256, (bytes - 3) as nat);
    assert(v / 256 / 256 / 256 / 256 == v / 0x1_0000_0000);
}

/// A text is read as it was written.
pub proof fn law_text_is_read(d: Seq<u8>, p: int, s: Seq<char>)
    requires
        stands_at(d, p, text_bytes(s)),
        encode_utf8(s).len() <= u64::MAX,
    ensures
        text_at(d, p) == Some((s, p + text_bytes(s).len())),
{
    let b = encode_utf8(s);
    lemma_little_len(b.len(), 8);
    lemma_stands_parts(d, p, little(b.len(), 8), b);
    law_numbers_are_read(d, p, b.len());
    assert(d.subrange(p + 8, p + 8 + b.len()) =~= b) by {
        assert forall|i: int| 0 <= i < b.len() implies d.subrange(p + 8, p + 8 + b.len())[i] == b[i] by {
            assert(d[p + 8 + i] == b[i]);
        }
    }
    encode_utf8_valid_utf8(s);
    encode_utf8_decode_utf8(s);
}

// ---------------------------------------------------------------------------
// Metadata
// ---------------------------------------------------------------------------

/// The number of a value's type.
pub open spec fn kind(v: MetaView) -> u32 {
    match v {
        MetaView::U8(_) => 0,
        MetaView::I8(_) => 1,
        MetaView::U16(_) => 2,
        MetaView::I16(_) => 3,
        MetaView::U32(_) => 4,
        MetaView::I32(_) => 5,
        MetaView::F32(_) => 6,
        MetaView::Bool(_) => 7,
        MetaView::String(_) => 8,
        MetaView::Array(_) => 9,
        MetaView::U64(_) => 10,
        MetaView::I64(_) => 11,
        MetaView::F64(_) => 12,
    }
}

/// A number below zero is written as what it lacks to the next power of 256.
pub open spec fn unsigned(v: int, bound: int) -> nat {
    if v < 0 {
        (v + bound) as nat
    } else {
        v as nat
    }
}

/// The bytes of a value that is no list.
pub open spec fn plain_bytes(v: MetaView) -> Seq<u8> {
    match v {
        MetaView::U8(n) => little(n as nat, 1),
        MetaView::I8(n) => little(unsigned(n as int, 0x100), 1),
        MetaView::U16(n) => little(n as nat, 2),
        MetaView::I16(n) => little(unsigned(n as int, 0x1_0000), 2),
        MetaView::U32(n) => little(n as nat, 4),
        MetaView::I32(n) => little(unsigned(n as int, 0x1_0000_0000), 4),
        MetaView::F32(b) => little(b as nat, 4),
        MetaView::Bool(b) => little(
            if b {
                1
            } else {
                0
            },
            1,
        ),
        MetaView::String(s) => text_bytes(s),
        MetaView::U64(n) => little(n as nat, 8),
        MetaView::I64(n) => little(unsigned(n as int, 0x1_0000_0000_0000_0000), 8),
        MetaView::F64(b) => little(b as nat, 8),
        MetaView::Array(_) => Seq::empty(),
    }
}

/// The bytes of values that are no lists, one behind the other.
pub open spec fn items_bytes(items: Seq<MetaView>) -> Seq<u8>
    decreases items.len(),
{
    if items.len() == 0 {
        Seq::empty()
    } else {
        plain_bytes(items[0]) + items_bytes(items.skip(1))
    }
}

/// A value that is no list and can be written.
pub open spec fn plain(v: MetaView) -> bool {
    !(v is Array) && (v matches MetaView::String(s) ==> encode_utf8(s).len() <= u64::MAX)
}

/// A value that can be written: a plain one, or a list of plain ones of one type.
pub open spec fn writable(v: MetaView) -> bool {
    match v {
        MetaView::Array(items) => {
            &&& 0 < items.len() <= u64::MAX
            &&& forall|i: int| 0 <= i < items.len() ==> plain(#[trigger] items[i]) && kind(items[i]) == kind(items[0])
        },
        _ => plain(v),
    }
}

/// The bytes of a value. A list has the type and the number of its items before them.
pub open spec fn value_bytes(v: MetaView) -> Seq<u8> {
    match v {
        MetaView::Array(items) => little(kind(items[0]) as nat, 4) + little(items.len(), 8) + items_bytes(items),
        _ => plain_bytes(v),
    }
}

proof fn lemma_signed(n8: i8, n16: i16, n32: i32, n64: i64)
    ensures
        unsigned(n8 as int, 0x100) < 0x100 && unsigned(n8 as int, 0x100) as u8 as i8 == n8,
        unsigned(n16 as int, 0x1_0000) < 0x1_0000 && unsigned(n16 as int, 0x1_0000) as u16 as i16 == n16,
        unsigned(n32 as int, 0x1_0000_0000) < 0x1_0000_0000 && unsigned(n32 as int, 0x1_0000_0000) as u32 as i32 == n32,
        unsigned(n64 as int, 0x1_0000_0000_0000_0000) < 0x1_0000_0000_0000_0000 && unsigned(
            n64 as int,
            0x1_0000_0000_0000_0000,
        ) as u64 as i64 == n64,
{
    let u8v = unsigned(n8 as int, 0x100) as u8;
    assert(u8v as i8 == if u8v < 0x80 { u8v as int } else { u8v - 0x100 }) by (bit_vector);
    let u16v = unsigned(n16 as int, 0x1_0000) as u16;
    assert(u16v as i16 == if u16v < 0x8000 { u16v as int } else { u16v - 0x1_0000 }) by (bit_vector);
    let u32v = unsigned(n32 as int, 0x1_0000_0000) as u32;
    assert(u32v as i32 == if u32v < 0x8000_0000 { u32v as int } else { u32v - 0x1_0000_0000 }) by (bit_vector);
    let u64v = unsigned(n64 as int, 0x1_0000_0000_0000_0000) as u64;
    assert(u64v as i64 == if u64v < 0x8000_0000_0000_0000 { u64v as int } else { u64v - 0x1_0000_0000_0000_0000 })
        by (bit_vector);
}

proof fn lemma_plain_is_read(d: Seq<u8>, p: int, v: MetaView)
    requires
        plain(v),
        stands_at(d, p, plain_bytes(v)),
    ensures
        value_at(d, p, kind(v)) == Some((v, p + plain_bytes(v).len())),
        plain_bytes(v).len() > 0,
{
    match v {
        MetaView::U8(n) => {
            law_numbers_are_read(d, p, n as nat);
            lemma_little_len(n as nat, 1);
        },
        MetaView::I8(n) => {
            lemma_signed(n, 0, 0, 0);
            law_numbers_are_read(d, p, unsigned(n as int, 0x100));
            lemma_little_len(unsigned(n as int, 0x100), 1);
        },
        MetaView::U16(n) => {
            law_numbers_are_read(d, p, n as nat);
            lemma_little_len(n as nat, 2);
        },
        MetaView::I16(n) => {
            lemma_signed(0, n, 0, 0);
            law_numbers_are_read(d, p, unsigned(n as int, 0x1_0000));
            lemma_little_len(unsigned(n as int, 0x1_0000), 2);
        },
        MetaView::U32(n) => {
            law_numbers_are_read(d, p, n as nat);
            lemma_little_len(n as nat, 4);
        },
        MetaView::I32(n) => {
            lemma_signed(0, 0, n, 0);
            law_numbers_are_read(d, p, unsigned(n as int, 0x1_0000_0000));
            lemma_little_len(unsigned(n as int, 0x1_0000_0000), 4);
        },
        MetaView::F32(b) => {
            law_numbers_are_read(d, p, b as nat);
            lemma_little_len(b as nat, 4);
        },
        MetaView::Bool(b) => {
            let n: nat = if b {
                1
            } else {
                0
            };
            law_numbers_are_read(d, p, n);
            lemma_little_len(n, 1);
        },
        MetaView::String(s) => {
            law_text_is_read(d, p, s);
            lemma_little_len(encode_utf8(s).len(), 8);
        },
        MetaView::U64(n) => {
            law_numbers_are_read(d, p, n as nat);
            lemma_little_len(n as nat, 8);
        },
        MetaView::I64(n) => {
            lemma_signed(0, 0, 0, n);
            law_numbers_are_read(d, p, unsigned(n as int, 0x1_0000_0000_0000_0000));
            lemma_little_len(unsigned(n as int, 0x1_0000_0000_0000_0000), 8);
        },
        MetaView::F64(b) => {
            law_numbers_are_read(d, p, b as nat);
            lemma_little_len(b as nat, 8);
        },
        MetaView::Array(_) => {},
    }
}

proof fn lemma_items_are_read(d: Seq<u8>, p: int, items: Seq<MetaView>, t: u32)
    requires
        forall|i: int| 0 <= i < items.len() ==> plain(#[trigger] items[i]) && kind(items[i]) == t,
        stands_at(d, p, items_bytes(items)),
    ensures
        values_at(d, p, t, items.len()) == Some((items, p + items_bytes(items).len())),
    decreases items.len(),
{
    if items.len() == 0 {
        assert(items =~= Seq::empty());
    } else {
        let rest = items.skip(1);
        let first = plain_bytes(items[0]);
        lemma_stands_parts(d, p, first, items_bytes(rest));
        lemma_plain_is_read(d, p, items[0]);
        assert forall|i: int| 0 <= i < rest.len() implies plain(#[trigger] rest[i]) && kind(rest[i]) == t by {
            assert(rest[i] == items[i + 1]);
        }
        lemma_items_are_read(d, p + first.len(), rest, t);
        assert(seq![items[0]] + rest =~= items);
    }
}

/// A metadata value is read as it was written, and reading goes on behind it.
pub proof fn law_value_is_read(d: Seq<u8>, p: int, v: MetaView)
    requires
        writable(v),
        stands_at(d, p, value_bytes(v)),
    ensures
        value_at(d, p, kind(v)) == Some((v, p + value_bytes(v).len())),
{
    match v {
        MetaView::Array(items) => {
            let t = kind(items[0]);
            let head = little(t as nat, 4) + little(items.len(), 8);
            lemma_little_len(t as nat, 4);
            lemma_little_len(items.len(), 8);
            lemma_stands_parts(d, p, head, items_bytes(items));
            lemma_stands_parts(d, p, little(t as nat, 4), little(items.len(), 8));
            law_numbers_are_read(d, p, t as nat);
            law_numbers_are_read(d, p + 4, items.len());
            lemma_items_are_read(d, p + 12, items, t);
        },
        _ => {
            lemma_plain_is_read(d, p, v);
        },
    }
}

/// The bytes of metadata entries: key, type and value of each.
pub open spec fn entries_bytes(entries: Seq<(Seq<char>, MetaView)>) -> Seq<u8>
    decreases entries.len(),
{
    if entries.len() == 0 {
        Seq::empty()
    } else {
        text_bytes(entries[0].0) + (little(kind(entries[0].1) as nat, 4) + (value_bytes(entries[0].1) + entries_bytes(
            entries.skip(1),
        )))
    }
}

/// Entries that can be written, no key twice.
pub open spec fn entries_ok(entries: Seq<(Seq<char>, MetaView)>) -> bool {
    &&& forall|i: int|
        0 <= i < entries.len() ==> writable((#[trigger] entries[i]).1) && encode_utf8(entries[i].0).len() <= u64::MAX
    &&& forall|i: int, j: int| 0 <= i < j < entries.len() ==> (#[trigger] entries[i]).0 != (#[trigger] entries[j]).0
}

/// The entries are read into a map that holds each of them, besides what was there.
proof fn lemma_entries_are_read(
    d: Seq<u8>,
    p: int,
    entries: Seq<(Seq<char>, MetaView)>,
    acc: Seq<(Seq<char>, MetaView)>,
)
    requires
        entries_ok(entries),
        keys_ordered(acc),
        stands_at(d, p, entries_bytes(entries)),
    ensures
        ({
            let r = metadata_at(d, p, entries.len(), acc);
            &&& r is Ok
            &&& r->Ok_0.1 == p + entries_bytes(entries).len()
            &&& keys_ordered(r->Ok_0.0)
            &&& forall|i: int|
                0 <= i < entries.len() ==> map_get(r->Ok_0.0, (#[trigger] entries[i]).0) == Some(entries[i].1)
            &&& forall|k: Seq<char>|
                (forall|i: int| 0 <= i < entries.len() ==> (#[trigger] entries[i]).0 != k) ==> #[trigger] map_get(
                    r->Ok_0.0,
                    k,
                ) == map_get(acc, k)
        }),
    decreases entries.len(),
{
    if entries.len() > 0 {
        let (key, v) = entries[0];
        let rest = entries.skip(1);
        let kb = text_bytes(key);
        let tb = little(kind(v) as nat, 4);
        let vb = value_bytes(v);
        let rb = entries_bytes(rest);
        assert(entries_bytes(entries) == kb + (tb + (vb + rb)));
        assert(writable(entries[0].1));
        lemma_little_len(kind(v) as nat, 4);
        lemma_stands_parts(d, p, kb, tb + (vb + rb));
        lemma_stands_parts(d, p + kb.len(), tb, vb + rb);
        lemma_stands_parts(d, p + kb.len() + 4, vb, rb);
        law_text_is_read(d, p, key);
        law_numbers_are_read(d, p + kb.len(), kind(v) as nat);
        law_value_is_read(d, p + kb.len() + 4, v);
        assert forall|i: int| 0 <= i < rest.len() implies writable((#[trigger] rest[i]).1) && encode_utf8(rest[i].0).len()
            <= u64::MAX by {
            assert(rest[i] == entries[i + 1]);
        }
        assert forall|i: int, j: int| 0 <= i < j < rest.len() implies (#[trigger] rest[i]).0 != (#[trigger] rest[j]).0 by {
            assert(rest[i] == entries[i + 1] && rest[j] == entries[j + 1]);
        }
        let next = map_put(acc, key, v);
        lemma_put_ordered(acc, key, v);
        lemma_entries_are_read(d, p + kb.len() + 4 + vb.len(), rest, next);
        let all = metadata_at(d, p, entries.len(), acc)->Ok_0.0;
        assert(all == metadata_at(d, p + kb.len() + 4 + vb.len(), rest.len(), next)->Ok_0.0);
        assert forall|i: int| 0 <= i < entries.len() implies map_get(all, (#[trigger] entries[i]).0) == Some(
            entries[i].1,
        ) by {
            if i > 0 {
                assert(rest[i - 1] == entries[i]);
            } else {
                assert forall|j: int| 0 <= j < rest.len() implies (#[trigger] rest[j]).0 != key by {
                    assert(rest[j] == entries[j + 1]);
                }
                law_get_after_put(acc, key, v, key);
            }
        }
        assert forall|k: Seq<char>|
            (forall|i: int| 0 <= i < entries.len() ==> (#[trigger] entries[i]).0 != k) implies #[trigger] map_get(all, k)
            == map_get(acc, k) by {
            assert forall|j: int| 0 <= j < rest.len() implies (#[trigger] rest[j]).0 != k by {
                assert(rest[j] == entries[j + 1]);
            }
            assert(entries[0].0 != k);
            law_get_after_put(acc, key, v, k);
        }
    }
}

// ---------------------------------------------------------------------------
// Tensor descriptors
// ---------------------------------------------------------------------------

/// The bytes of extents.
pub open spec fn extents_bytes(dims: Seq<u64>) -> Seq<u8>
    decreases dims.len(),
{
    if dims.len() == 0 {
        Seq::empty()
    } else {
        little(dims[0] as nat, 8) + extents_bytes(dims.skip(1))
    }
}

/// The number of a tensor's type.
pub open spec fn type_number(t: GgmlType) -> nat {
    match t {
        GgmlType::F32 => 0,
        GgmlType::F16 => 1,
        GgmlType::Q4_0 => 2,
        GgmlType::Q4_1 => 3,
        GgmlType::Q5_0 => 6,
        GgmlType::Q5_1 => 7,
        GgmlType::Q8_0 => 8,
        GgmlType::Q8_1 => 9,
        GgmlType::Q2K => 10,
        GgmlType::Q3K => 11,
        GgmlType::Q4K => 12,
        GgmlType::Q5K => 13,
        GgmlType::Q6K => 14,
        GgmlType::Q8K => 15,
        GgmlType::IQ2XXS => 16,
        GgmlType::IQ2XS => 17,
        GgmlType::IQ3XXS => 18,
        GgmlType::IQ1S => 19,
        GgmlType::IQ4NL => 20,
        GgmlType::IQ3S => 21,
        GgmlType::IQ2S => 22,
        GgmlType::IQ4XS => 23,
    }
}

/// A tensor descriptor that can be written: up to four extents, the others zero.
pub open spec fn descriptor_ok(t: TensorView) -> bool {
    &&& t.n_dims <= 4
    &&& t.dims.len() == 4
    &&& forall|i: int| t.n_dims <= i < 4 ==> #[trigger] t.dims[i] == 0
    &&& encode_utf8(t.name).len() <= u64::MAX
}

/// The bytes of a tensor descriptor.
pub open spec fn descriptor_bytes(t: TensorView) -> Seq<u8> {
    text_bytes(t.name) + (little(t.n_dims as nat, 4) + (extents_bytes(t.dims.take(t.n_dims as int)) + (little(
        type_number(t.dtype),
        4,
    ) + little(t.offset as nat, 8))))
}

proof fn lemma_extents_are_read(d: Seq<u8>, p: int, dims: Seq<u64>, k: int, n: int, acc: Seq<u64>)
    requires
        0 <= k <= n <= 4,
        acc.len() == 4,
        dims.len() == n - k,
        stands_at(d, p, extents_bytes(dims)),
    ensures
        dims_at(d, p, k, n, acc) == Some(
            (
                Seq::new(
                    4,
                    |i: int|
                        if k <= i < n {
                            dims[i - k]
                        } else {
                            acc[i]
                        },
                ),
                p + extents_bytes(dims).len(),
            ),
        ),
    decreases n - k,
{
    let want = Seq::new(
        4,
        |i: int|
            if k <= i < n {
                dims[i - k]
            } else {
                acc[i]
            },
    );
    if k == n {
        assert(want =~= acc);
    } else {
        let rest = dims.skip(1);
        lemma_little_len(dims[0] as nat, 8);
        lemma_stands_parts(d, p, little(dims[0] as nat, 8), extents_bytes(rest));
        law_numbers_are_read(d, p, dims[0] as nat);
        let next = acc.update(k, dims[0]);
        lemma_extents_are_read(d, p + 8, rest, k + 1, n, next);
        let got = Seq::new(
            4,
            |i: int|
                if k + 1 <= i < n {
                    rest[i - (k + 1)]
                } else {
                    next[i]
                },
        );
        assert(got =~= want);
    }
}

/// A tensor descriptor is read as it was written, and reading goes on behind it.
pub proof fn law_descriptor_is_read(d: Seq<u8>, p: int, t: TensorView)
    requires
        descriptor_ok(t),
        stands_at(d, p, descriptor_bytes(t)),
    ensures
        tensor_at(d, p) == Ok::<(TensorView, int), Seq<char>>((t, p + descriptor_bytes(t).len())),
{
    let nb = text_bytes(t.name);
    let cb = little(t.n_dims as nat, 4);
    let xb = extents_bytes(t.dims.take(t.n_dims as int));
    let kb = little(type_number(t.dtype), 4);
    let ob = little(t.offset as nat, 8);
    lemma_little_len(t.n_dims as nat, 4);
    lemma_little_len(type_number(t.dtype), 4);
    lemma_little_len(t.offset as nat, 8);
    lemma_stands_parts(d, p, nb, cb + (xb + (kb + ob)));
    let q = p + nb.len();
    lemma_stands_parts(d, q, cb, xb + (kb + ob));
    lemma_stands_parts(d, q + 4, xb, kb + ob);
    lemma_stands_parts(d, q + 4 + xb.len(), kb, ob);
    law_text_is_read(d, p, t.name);
    law_numbers_are_read(d, q, t.n_dims as nat);
    let zeros = seq![0u64, 0u64, 0u64, 0u64];
    lemma_extents_are_read(d, q + 4, t.dims.take(t.n_dims as int), 0, t.n_dims as int, zeros);
    let got = (dims_at(d, q + 4, 0, t.n_dims as int, zeros)->0).0;
    assert(got =~= t.dims);
    law_numbers_are_read(d, q + 4 + xb.len(), type_number(t.dtype));
    law_numbers_are_read(d, q + 4 + xb.len() + 4, t.offset as nat);
    assert(t.dtype.code() == type_number(t.dtype));
    crate::inference::gguf::lemma_type_of_code(t.dtype);
}

/// The bytes of tensor descriptors.
pub open spec fn descriptors_bytes(tensors: Seq<TensorView>) -> Seq<u8>
    decreases tensors.len(),
{
    if tensors.len() == 0 {
        Seq::empty()
    } else {
        descriptor_bytes(tensors[0]) + descriptors_bytes(tensors.skip(1))
    }
}

/// Descriptors that can be written, no name twice.
pub open spec fn descriptors_ok(tensors: Seq<TensorView>) -> bool {
    &&& forall|i: int| 0 <= i < tensors.len() ==> descriptor_ok(#[trigger] tensors[i])
    &&& forall|i: int, j: int| 0 <= i < j < tensors.len() ==> (#[trigger] tensors[i]).name != (#[trigger] tensors[j]).name
}

proof fn lemma_descriptors_are_read(
    d: Seq<u8>,
    p: int,
    tensors: Seq<TensorView>,
    acc: Seq<(Seq<char>, TensorView)>,
)
    requires
        descriptors_ok(tensors),
        keys_ordered(acc),
        stands_at(d, p, descriptors_bytes(tensors)),
    ensures
        ({
            let r = tensors_at(d, p, tensors.len(), acc);
            &&& r is Ok
            &&& r->Ok_0.1 == p + descriptors_bytes(tensors).len()
            &&& keys_ordered(r->Ok_0.0)
            &&& forall|i: int|
                0 <= i < tensors.len() ==> map_get(r->Ok_0.0, (#[trigger] tensors[i]).name) == Some(tensors[i])
            &&& forall|k: Seq<char>|
                (forall|i: int| 0 <= i < tensors.len() ==> (#[trigger] tensors[i]).name != k) ==> #[trigger] map_get(
                    r->Ok_0.0,
                    k,
                ) == map_get(acc, k)
        }),
    decreases tensors.len(),
{
    if tensors.len() > 0 {
        let t = tensors[0];
        let rest = tensors.skip(1);
        let tb = descriptor_bytes(t);
        lemma_stands_parts(d, p, tb, descriptors_bytes(rest));
        law_descriptor_is_read(d, p, t);
        assert forall|i: int| 0 <= i < rest.len() implies descriptor_ok(#[trigger] rest[i]) by {
            assert(rest[i] == tensors[i + 1]);
        }
        assert forall|i: int, j: int| 0 <= i < j < rest.len() implies (#[trigger] rest[i]).name
            != (#[trigger] rest[j]).name by {
            assert(rest[i] == tensors[i + 1] && rest[j] == tensors[j + 1]);
        }
        let next = map_put(acc, t.name, t);
        lemma_put_ordered(acc, t.name, t);
        lemma_descriptors_are_read(d, p + tb.len(), rest, next);
        let all = tensors_at(d, p, tensors.len(), acc)->Ok_0.0;
        assert(all == tensors_at(d, p + tb.len(), rest.len(), next)->Ok_0.0);
        assert forall|i: int| 0 <= i < tensors.len() implies map_get(all, (#[trigger] tensors[i]).name) == Some(
            tensors[i],
        ) by {
            if i > 0 {
                assert(rest[i - 1] == tensors[i]);
            } else {
                assert forall|j: int| 0 <= j < rest.len() implies (#[trigger] rest[j]).name != t.name by {
                    assert(rest[j] == tensors[j + 1]);
                }
                law_get_after_put(acc, t.name, t, t.name);
            }
        }
        assert forall|k: Seq<char>|
            (forall|i: int| 0 <= i < tensors.len() ==> (#[trigger] tensors[i]).name != k) implies #[trigger] map_get(
            all,
            k,
        ) == map_get(acc, k) by {
            assert forall|j: int| 0 <= j < rest.len() implies (#[trigger] rest[j]).name != k by {
                assert(rest[j] == tensors[j + 1]);
            }
            assert(tensors[0].name != k);
            law_get_after_put(acc, t.name, t, k);
        }
    }
}

// ---------------------------------------------------------------------------
// Files
// ---------------------------------------------------------------------------

/// The beginning of a model file: the mark "GGUF", the version, how many tensors and
/// entries there are, and these. Padding and the tensors' data follow.
pub open spec fn file_head(version: u32, entries: Seq<(Seq<char>, MetaView)>, tensors: Seq<TensorView>) -> Seq<u8> {
    seq![0x47u8, 0x47u8, 0x55u8, 0x46u8] + (little(version as nat, 4) + (little(tensors.len(), 8) + (little(
        entries.len(),
        8,
    ) + (entries_bytes(entries) + descriptors_bytes(tensors)))))
}

/// A model file is read as it was written: its version, every metadata entry, every tensor
/// descriptor, and nothing else. The data begin behind the head.
pub proof fn law_file_is_read(
    d: Seq<u8>,
    version: u32,
    entries: Seq<(Seq<char>, MetaView)>,
    tensors: Seq<TensorView>,
)
    requires
        version == 2 || version == 3,
        entries_ok(entries),
        descriptors_ok(tensors),
        entries.len() <= 100_000,
        tensors.len() <= 100_000,
        stands_at(d, 0, file_head(version, entries, tensors)),
        forall|i: int| 0 <= i < entries.len() ==> (#[trigger] entries[i]).0 != "general.alignment"@,
        file_head(version, entries, tensors).len() + 32 <= d.len() <= u64::MAX,
    ensures
        parsed_file(d) is Ok,
        ({
            let g = parsed_file(d)->Ok_0;
            let end = file_head(version, entries, tensors).len();
            &&& g.version == version
            &&& g.data == d
            &&& forall|i: int| 0 <= i < entries.len() ==> map_get(g.metadata, (#[trigger] entries[i]).0) == Some(entries[i].1)
            &&& forall|k: Seq<char>|
                (forall|i: int| 0 <= i < entries.len() ==> (#[trigger] entries[i]).0 != k) ==> #[trigger] map_get(
                    g.metadata,
                    k,
                ) is None
            &&& forall|i: int| 0 <= i < tensors.len() ==> map_get(g.tensors, (#[trigger] tensors[i]).name) == Some(tensors[i])
            &&& forall|k: Seq<char>|
                (forall|i: int| 0 <= i < tensors.len() ==> (#[trigger] tensors[i]).name != k) ==> #[trigger] map_get(
                    g.tensors,
                    k,
                ) is None
            &&& end <= g.tensor_data_offset < end + 32
            &&& g.tensor_data_offset % 32 == 0
        }),
{
    let magic = seq![0x47u8, 0x47u8, 0x55u8, 0x46u8];
    let vb = little(version as nat, 4);
    let tb = little(tensors.len(), 8);
    let eb = little(entries.len(), 8);
    let es = entries_bytes(entries);
    let ts = descriptors_bytes(tensors);
    lemma_little_len(version as nat, 4);
    lemma_little_len(tensors.len(), 8);
    lemma_little_len(entries.len(), 8);
    lemma_stands_parts(d, 0, magic, vb + (tb + (eb + (es + ts))));
    lemma_stands_parts(d, 4, vb, tb + (eb + (es + ts)));
    lemma_stands_parts(d, 8, tb, eb + (es + ts));
    lemma_stands_parts(d, 16, eb, es + ts);
    lemma_stands_parts(d, 24, es, ts);
    assert(d[0int + 0] == magic[0] && d[0int + 1] == magic[1] && d[0int + 2] == magic[2] && d[0int + 3] == magic[3]);
    law_numbers_are_read(d, 4, version as nat);
    law_numbers_are_read(d, 8, tensors.len());
    law_numbers_are_read(d, 16, entries.len());
    lemma_entries_are_read(d, 24, entries, Seq::empty());
    lemma_descriptors_are_read(d, 24 + es.len() as int, tensors, Seq::empty());
    let metadata = metadata_at(d, 24, entries.len(), Seq::empty())->Ok_0.0;
    assert(map_get(metadata, "general.alignment"@) == map_get(Seq::<(Seq<char>, MetaView)>::empty(), "general.alignment"@));
    let q = 24 + es.len() + ts.len();
    assert(alignment_of(metadata) == 32);
    law_data_are_aligned(q as int);
}

/// The data begin at the first multiple of the usual alignment that is not before the
/// end of the head.
pub proof fn law_data_are_aligned(p: int)
    requires
        0 <= p <= u64::MAX - 32,
    ensures
        p <= aligned_position(p, 32) < p + 32,
        aligned_position(p, 32) % 32 == 0,
{
    let x = (p + 31) as u64;
    assert(x & !31u64 <= x && x - (x & !31u64) < 32 && (x & !31u64) % 32 == 0) by (bit_vector);
}

/// A tensor's weights come from its own bytes: those at its offset into the data, as many
/// as its type and extents take; where the file does not hold them all, it is refused.
pub proof fn law_tensor_is_loaded(d: Seq<u8>, g: GgufView, t: TensorView, name: Seq<char>, raw: Seq<u8>)
    requires
        map_get(g.tensors, name) == Some(t),
        0 <= t.bytes() == raw.len(),
        stands_at(d, g.tensor_data_offset + t.offset, raw),
    ensures
        tensor_weights(d, g, name) == Ok::<Seq<Weight>, Seq<char>>(weights_of(raw, t.dtype, t.elements())),
{
    let start = g.tensor_data_offset + t.offset;
    assert(d.subrange(start, start + t.bytes()) =~= raw) by {
        assert forall|i: int| 0 <= i < raw.len() implies d.subrange(start, start + t.bytes())[i] == raw[i] by {
            assert(d[start + i] == raw[i]);
        }
    }
}

/// A tensor that the file lacks, or whose bytes it does not hold, is not loaded.
pub proof fn law_missing_tensor_is_refused(d: Seq<u8>, g: GgufView, name: Seq<char>)
    ensures
        map_get(g.tensors, name) is None ==> tensor_weights(d, g, name) is Err,
        map_get(g.tensors, name) matches Some(t) ==> g.tensor_data_offset + t.offset + t.bytes() > d.len()
            ==> tensor_weights(d, g, name) is Err,
{
}

} // verus!
