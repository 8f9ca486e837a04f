//! Parser for GGUF model files: header, metadata and tensor layout.
//!
//! A file holds, in this order: the magic number, the version, the number of tensors,
//! the number of metadata entries, the metadata entries (a text key, a type and a
//! value), the tensor descriptors, padding up to the alignment, and the tensor data.
//! All numbers are little-endian. Floating-point values are kept as their bits.

use vstd::prelude::*;
use vstd::utf8::*;

use crate::text::{text, utf8_text};
use crate::text_map::{has_key, key_rank, keys_ordered, lemma_rank, map_get, map_put, TextMap};
use crate::views::{group_views, views};

verus! {

/// "GGUF", read as a little-endian number.
pub const GGUF_MAGIC: u32 = 0x4655_4747;

pub const GGUF_VERSION_2: u32 = 2;

pub const GGUF_VERSION_3: u32 = 3;

/// Alignment of the tensor data where the metadata gives none.
pub const DEFAULT_ALIGNMENT: u32 = 32;

/// More tensors or metadata entries than this are not believed.
pub const MAX_COUNT: u64 = 100_000;

/// Data types of tensors.
#[derive(Debug, Clone, Copy, PartialEq, Eq, Structural)]
pub enum GgmlType {
    F32,
    F16,
    Q4_0,
    Q4_1,
    Q5_0,
    Q5_1,
    Q8_0,
    Q8_1,
    Q2K,
    Q3K,
    Q4K,
    Q5K,
    Q6K,
    Q8K,
    IQ2XXS,
    IQ2XS,
    IQ3XXS,
    IQ1S,
    IQ4NL,
    IQ3S,
    IQ2S,
    IQ4XS,
}

impl GgmlType {
    /// The number that stands for the type in a file.
    pub open spec fn code(self) -> u32 {
        match self {
            GgmlType::F32 => 0,
            GgmlType::F16 => 1,
            GgmlType::Q4_0 => 2,
            GgmlType::Q4_1 => 3,
            GgmlType::Q5_0 => 6,
            GgmlType::Q5_1 => 7,
            GgmlType::Q8_0 => 8,
            GgmlType::Q8_1 => 9,
            GgmlType::Q2K => 10,
            GgmlType::Q3K => 11,
            GgmlType::Q4K => 12,
            GgmlType::Q5K => 13,
            GgmlType::Q6K => 14,
            GgmlType::Q8K => 15,
            GgmlType::IQ2XXS => 16,
            GgmlType::IQ2XS => 17,
            GgmlType::IQ3XXS => 18,
            GgmlType::IQ1S => 19,
            GgmlType::IQ4NL => 20,
            GgmlType::IQ3S => 21,
            GgmlType::IQ2S => 22,
            GgmlType::IQ4XS => 23,
        }
    }

    /// The type that a number stands for: every number up to 23 but 4 and 5 stands for
    /// one.
    pub fn from_u32(v: u32) -> (r: Option<Self>)
        ensures
            r matches Some(t) ==> t.code() == v,
            r is None <==> (v > 23 || v == 4 || v == 5),
    {
        match v {
            0 => Some(GgmlType::F32),
            1 => Some(GgmlType::F16),
            2 => Some(GgmlType::Q4_0),
            3 => Some(GgmlType::Q4_1),
            6 => Some(GgmlType::Q5_0),
            7 => Some(GgmlType::Q5_1),
            8 => Some(GgmlType::Q8_0),
            9 => Some(GgmlType::Q8_1),
            10 => Some(GgmlType::Q2K),
            11 => Some(GgmlType::Q3K),
            12 => Some(GgmlType::Q4K),
            13 => Some(GgmlType::Q5K),
            14 => Some(GgmlType::Q6K),
            15 => Some(GgmlType::Q8K),
            16 => Some(GgmlType::IQ2XXS),
            17 => Some(GgmlType::IQ2XS),
            18 => Some(GgmlType::IQ3XXS),
            19 => Some(GgmlType::IQ1S),
            20 => Some(GgmlType::IQ4NL),
            21 => Some(GgmlType::IQ3S),
            22 => Some(GgmlType::IQ2S),
            23 => Some(GgmlType::IQ4XS),
            _ => None,
        }
    }

    /// Bytes of one element, or of one block for quantized types; 0 where the size
    /// varies.
    pub open spec fn unit_bytes(self) -> int {
        match self {
            GgmlType::F32 => 4,
            GgmlType::F16 => 2,
            GgmlType::Q4_0 => 18,
            GgmlType::Q4_1 => 20,
            GgmlType::Q5_0 => 22,
            GgmlType::Q5_1 => 24,
            GgmlType::Q8_0 => 34,
            GgmlType::Q8_1 => 40,
            _ => 0,
        }
    }

    /// Elements of one block.
    pub open spec fn unit_elements(self) -> int {
        if self == GgmlType::F32 || self == GgmlType::F16 {
            1
        } else {
            32
        }
    }

    /// Bytes of `n` elements: whole blocks, the last one filled up.
    pub open spec fn bytes_for(self, n: int) -> int {
        (n + self.unit_elements() - 1) / self.unit_elements() * self.unit_bytes()
    }

    /// Size of one element in bytes; for block-quantized types, of one block.
    pub fn element_size(&self) -> (r: usize)
        ensures
            r == self.unit_bytes(),
    {
        match self {
            GgmlType::F32 => 4,
            GgmlType::F16 => 2,
            GgmlType::Q4_0 => 18,
            GgmlType::Q4_1 => 20,
            GgmlType::Q5_0 => 22,
            GgmlType::Q5_1 => 24,
            GgmlType::Q8_0 => 34,
            GgmlType::Q8_1 => 40,
            _ => 0,
        }
    }

    /// Number of elements per block.
    pub fn block_size(&self) -> (r: usize)
        ensures
            r == self.unit_elements(),
    {
        match self {
            GgmlType::F32 | GgmlType::F16 => 1,
            _ => 32,
        }
    }

    /// Total bytes for `n_elements` of this type.
    pub fn tensor_bytes(&self, n_elements: usize) -> (r: usize)
        requires
            n_elements + self.unit_elements() - 1 <= usize::MAX,
            self.bytes_for(n_elements as int) <= usize::MAX,
        ensures
            r == self.bytes_for(n_elements as int),
    {
        match self {
            GgmlType::F32 => n_elements * 4,
            GgmlType::F16 => n_elements * 2,
            _ => {
                let bs = self.block_size();
                let n_blocks = (n_elements + (bs - 1)) / bs;
                proof {
                    let e = self.unit_bytes();
                    assert(n_blocks * e <= usize::MAX);
                }
                n_blocks * self.element_size()
            },
        }
    }
}

// ---------------------------------------------------------------------------
// Reading numbers and text
// ---------------------------------------------------------------------------

pub open spec fn u8_at(d: Seq<u8>, p: int) -> Option<u8> {
    if 0 <= p && p + 1 <= d.len() {
        Some(d[p])
    } else {
        None
    }
}

pub open spec fn u16_at(d: Seq<u8>, p: int) -> Option<u16> {
    if 0 <= p && p + 2 <= d.len() {
        Some((d[p] + d[p + 1] * 0x100) as u16)
    } else {
        None
    }
}

pub open spec fn u32_at(d: Seq<u8>, p: int) -> Option<u32> {
    if 0 <= p && p + 4 <= d.len() {
        Some((d[p] + d[p + 1] * 0x100 + d[p + 2] * 0x1_0000 + d[p + 3] * 0x100_0000) as u32)
    } else {
        None
    }
}

pub open spec fn u64_at(d: Seq<u8>, p: int) -> Option<u64> {
    if 0 <= p && p + 8 <= d.len() {
        Some(
            (d[p] + d[p + 1] * 0x100 + d[p + 2] * 0x1_0000 + d[p + 3] * 0x100_0000 + d[p + 4] * 0x1_0000_0000 + d[p + 5]
                * 0x100_0000_0000 + d[p + 6] * 0x1_0000_0000_0000 + d[p + 7] * 0x100_0000_0000_0000) as u64,
        )
    } else {
        None
    }
}

/// A text: the number of its bytes, then the bytes, which must be well-formed.
/// Returns the text and the position behind it.
pub open spec fn text_at(d: Seq<u8>, p: int) -> Option<(Seq<char>, int)> {
    match u64_at(d, p) {
        Some(len) => if p + 8 + len <= d.len() && valid_utf8(d.subrange(p + 8, p + 8 + len)) {
            Some((decode_utf8(d.subrange(p + 8, p + 8 + len)), p + 8 + len))
        } else {
            None
        },
        None => None,
    }
}

fn read_u8(d: &[u8], p: usize) -> (r: Option<u8>)
    ensures
        r == u8_at(d@, p as int),
{
    if p < d.len() {
        Some(d[p])
    } else {
        None
    }
}

fn read_u16(d: &[u8], p: usize) -> (r: Option<u16>)
    ensures
        r == u16_at(d@, p as int),
{
    if d.len() >= 2 && p <= d.len() - 2 {
        Some(d[p] as u16 + d[p + 1] as u16 * 0x100)
    } else {
        None
    }
}

/// Read a little-endian `u32` at `p`.
pub fn read_u32(d: &[u8], p: usize) -> (r: Option<u32>)
    ensures
        r == u32_at(d@, p as int),
{
    if d.len() >= 4 && p <= d.len() - 4 {
        Some(d[p] as u32 + d[p + 1] as u32 * 0x100 + d[p + 2] as u32 * 0x1_0000 + d[p + 3] as u32 * 0x100_0000)
    } else {
        None
    }
}

fn read_u64(d: &[u8], p: usize) -> (r: Option<u64>)
    ensures
        r == u64_at(d@, p as int),
{
    if d.len() >= 8 && p <= d.len() - 8 {
        Some(
            d[p] as u64 + d[p + 1] as u64 * 0x100 + d[p + 2] as u64 * 0x1_0000 + d[p + 3] as u64 * 0x100_0000 + d[p
                + 4] as u64 * 0x1_0000_0000 + d[p + 5] as u64 * 0x100_0000_0000 + d[p + 6] as u64
                * 0x1_0000_0000_0000 + d[p + 7] as u64 * 0x100_0000_0000_0000,
        )
    } else {
        None
    }
}

fn read_text(d: &[u8], p: usize) -> (r: Option<(String, usize)>)
    ensures
        match r {
            Some((s, q)) => text_at(d@, p as int) == Some((s@, q as int)) && p + 8 <= q <= d@.len(),
            None => text_at(d@, p as int) is None,
        },
{
    match read_u64(d, p) {
        Some(len) => {
            let n = d.len();
            let room = n - p - 8;
            if len > room as u64 {
                return None;
            }
            let end = p + 8 + len as usize;
            match utf8_text(vstd::slice::slice_subrange(d, p + 8, end)) {
                Some(s) => Some((s, end)),
                None => None,
            }
        },
        None => None,
    }
}

// ---------------------------------------------------------------------------
// Metadata values
// ---------------------------------------------------------------------------

/// A metadata value. Floating-point numbers are given by their bits.
#[derive(Debug)]
pub enum MetadataValue {
    U8(u8),
    I8(i8),
    U16(u16),
    I16(i16),
    U32(u32),
    I32(i32),
    U64(u64),
    I64(i64),
    F32(u32),
    F64(u64),
    Bool(bool),
    String(String),
    Array(Vec<MetadataValue>),
}

/// What a metadata value holds.
#[verifier::ext_equal]
pub enum MetaView {
    U8(u8),
    I8(i8),
    U16(u16),
    I16(i16),
    U32(u32),
    I32(i32),
    U64(u64),
    I64(i64),
    F32(u32),
    F64(u64),
    Bool(bool),
    String(Seq<char>),
    Array(Seq<MetaView>),
}

impl View for MetadataValue {
    type V = MetaView;

    open spec fn view(&self) -> MetaView {
        self.model()
    }
}

/// A single- or double-precision number, by its bits.
#[derive(Debug, Clone, Copy, PartialEq, Eq, Structural)]
pub enum FloatBits {
    Single(u32),
    Double(u64),
}

impl MetadataValue {
    pub open spec fn model(self) -> MetaView
        decreases self,
    {
        match self {
            MetadataValue::U8(v) => MetaView::U8(v),
            MetadataValue::I8(v) => MetaView::I8(v),
            MetadataValue::U16(v) => MetaView::U16(v),
            MetadataValue::I16(v) => MetaView::I16(v),
            MetadataValue::U32(v) => MetaView::U32(v),
            MetadataValue::I32(v) => MetaView::I32(v),
            MetadataValue::U64(v) => MetaView::U64(v),
            MetadataValue::I64(v) => MetaView::I64(v),
            MetadataValue::F32(v) => MetaView::F32(v),
            MetadataValue::F64(v) => MetaView::F64(v),
            MetadataValue::Bool(v) => MetaView::Bool(v),
            MetadataValue::String(s) => MetaView::String(s@),
            MetadataValue::Array(a) => MetaView::Array(
                Seq::new(
                    a@.len(),
                    |i: int|
                        if 0 <= i < a@.len() {
                            a@[i].model()
                        } else {
                            MetaView::Bool(false)
                        },
                ),
            ),
        }
    }

    /// The models of the items of an array.
    pub open spec fn items(a: Seq<MetadataValue>) -> Seq<MetaView> {
        a.map_values(|v: MetadataValue| v.model())
    }

    /// The model of an array is made of the models of its items.
    pub broadcast proof fn lemma_array_model(a: Vec<MetadataValue>)
        ensures
            #[trigger] MetadataValue::Array(a).model() == MetaView::Array(MetadataValue::items(a@)),
    {
        assert(MetadataValue::Array(a).model()->Array_0 =~= MetadataValue::items(a@));
    }

    /// Extract as `u32` if applicable; wider values keep their low bits.
    pub fn as_u32(&self) -> (r: Option<u32>)
        ensures
            r == self@.u32_value(),
    {
        match self {
            MetadataValue::U32(v) => Some(*v),
            MetadataValue::U64(v) => Some(#[verifier::truncate] (*v as u32)),
            MetadataValue::I32(v) => Some(#[verifier::truncate] (*v as u32)),
            _ => None,
        }
    }

    /// Extract as `u64` if applicable.
    pub fn as_u64(&self) -> (r: Option<u64>)
        ensures
            r == self@.u64_value(),
    {
        match self {
            MetadataValue::U64(v) => Some(*v),
            MetadataValue::U32(v) => Some(*v as u64),
            MetadataValue::I64(v) => Some(#[verifier::truncate] (*v as u64)),
            _ => None,
        }
    }

    /// Extract as a floating-point number if applicable.
    pub fn as_f32(&self) -> (r: Option<FloatBits>)
        ensures
            r == self@.float_value(),
    {
        match self {
            MetadataValue::F32(v) => Some(FloatBits::Single(*v)),
            MetadataValue::F64(v) => Some(FloatBits::Double(*v)),
            _ => None,
        }
    }

    /// Extract as text if applicable.
    pub fn as_str(&self) -> (r: Option<&str>)
        ensures
            match r {
                Some(s) => self@.text_value() == Some(s@),
                None => self@.text_value() is None,
            },
    {
        match self {
            MetadataValue::String(s) => Some(s.as_str()),
            _ => None,
        }
    }
}

impl MetaView {
    pub open spec fn u32_value(self) -> Option<u32> {
        match self {
            MetaView::U32(v) => Some(v),
            MetaView::U64(v) => Some(v as u32),
            MetaView::I32(v) => Some(v as u32),
            _ => None,
        }
    }

    pub open spec fn u64_value(self) -> Option<u64> {
        match self {
            MetaView::U64(v) => Some(v),
            MetaView::U32(v) => Some(v as u64),
            MetaView::I64(v) => Some(v as u64),
            _ => None,
        }
    }

    pub open spec fn float_value(self) -> Option<FloatBits> {
        match self {
            MetaView::F32(v) => Some(FloatBits::Single(v)),
            MetaView::F64(v) => Some(FloatBits::Double(v)),
            _ => None,
        }
    }

    pub open spec fn text_value(self) -> Option<Seq<char>> {
        match self {
            MetaView::String(s) => Some(s),
            _ => None,
        }
    }
}

/// The value of type `t` at `p`, and the position behind it. An array has the type of
/// its items and their number before the items.
pub open spec fn value_at(d: Seq<u8>, p: int, t: u32) -> Option<(MetaView, int)>
    decreases d.len() - p, 0int,
{
    if p < 0 || p > d.len() {
        None
    } else if t == 0 {
        match u8_at(d, p) {
            Some(v) => Some((MetaView::U8(v), p + 1)),
            None => None,
        }
    } else if t == 1 {
        match u8_at(d, p) {
            Some(v) => Some((MetaView::I8(v as i8), p + 1)),
            None => None,
        }
    } else if t == 2 {
        match u16_at(d, p) {
            Some(v) => Some((MetaView::U16(v), p + 2)),
            None => None,
        }
    } else if t == 3 {
        match u16_at(d, p) {
            Some(v) => Some((MetaView::I16(v as i16), p + 2)),
            None => None,
        }
    } else if t == 4 {
        match u32_at(d, p) {
            Some(v) => Some((MetaView::U32(v), p + 4)),
            None => None,
        }
    } else if t == 5 {
        match u32_at(d, p) {
            Some(v) => Some((MetaView::I32(v as i32), p + 4)),
            None => None,
        }
    } else if t == 6 {
        match u32_at(d, p) {
            Some(v) => Some((MetaView::F32(v), p + 4)),
            None => None,
        }
    } else if t == 7 {
        match u8_at(d, p) {
            Some(v) => Some((MetaView::Bool(v != 0), p + 1)),
            None => None,
        }
    } else if t == 8 {
        match text_at(d, p) {
            Some((s, q)) => Some((MetaView::String(s), q)),
            None => None,
        }
    } else if t == 9 {
        match (u32_at(d, p), u64_at(d, p + 4)) {
            (Some(item_type), Some(count)) => match values_at(d, p + 12, item_type, count as nat) {
                Some((vs, q)) => Some((MetaView::Array(vs), q)),
                None => None,
            },
            _ => None,
        }
    } else if t == 10 {
        match u64_at(d, p) {
            Some(v) => Some((MetaView::U64(v), p + 8)),
            None => None,
        }
    } else if t == 11 {
        match u64_at(d, p) {
            Some(v) => Some((MetaView::I64(v as i64), p + 8)),
            None => None,
        }
    } else if t == 12 {
        match u64_at(d, p) {
            Some(v) => Some((MetaView::F64(v), p + 8)),
            None => None,
        }
    } else {
        None
    }
}

/// `count` values of one type from `p` on, and the position behind them.
pub open spec fn values_at(d: Seq<u8>, p: int, t: u32, count: nat) -> Option<(Seq<MetaView>, int)>
    decreases d.len() - p, 1int + count,
{
    if p < 0 || p > d.len() {
        None
    } else if count == 0 {
        Some((Seq::empty(), p))
    } else {
        match value_at(d, p, t) {
            Some((v, q)) => if p < q <= d.len() {
                match values_at(d, q, t, (count - 1) as nat) {
                    Some((vs, e)) => Some((seq![v] + vs, e)),
                    None => None,
                }
            } else {
                None
            },
            None => None,
        }
    }
}

/// Read the value of type `t` at `p`.
fn read_value(d: &[u8], p: usize, t: u32) -> (r: Option<(MetadataValue, usize)>)
    requires
        p <= d@.len(),
    ensures
        match r {
            Some((v, q)) => value_at(d@, p as int, t) == Some((v@, q as int)) && p < q <= d@.len(),
            None => value_at(d@, p as int, t) is None,
        },
    decreases d@.len() - p,
{
    let n = d.len();
    assert(d@.len() == n);
    match t {
        0 => match read_u8(d, p) {
            Some(v) => Some((MetadataValue::U8(v), p + 1)),
            None => None,
        },
        1 => match read_u8(d, p) {
            Some(v) => Some((MetadataValue::I8(#[verifier::truncate] (v as i8)), p + 1)),
            None => None,
        },
        2 => match read_u16(d, p) {
            Some(v) => Some((MetadataValue::U16(v), p + 2)),
            None => None,
        },
        3 => match read_u16(d, p) {
            Some(v) => Some((MetadataValue::I16(#[verifier::truncate] (v as i16)), p + 2)),
            None => None,
        },
        4 => match read_u32(d, p) {
            Some(v) => Some((MetadataValue::U32(v), p + 4)),
            None => None,
        },
        5 => match read_u32(d, p) {
            Some(v) => Some((MetadataValue::I32(#[verifier::truncate] (v as i32)), p + 4)),
            None => None,
        },
        6 => match read_u32(d, p) {
            Some(v) => Some((MetadataValue::F32(v), p + 4)),
            None => None,
        },
        7 => match read_u8(d, p) {
            Some(v) => Some((MetadataValue::Bool(v != 0), p + 1)),
            None => None,
        },
        8 => match read_text(d, p) {
            Some((s, q)) => Some((MetadataValue::String(s), q)),
            None => None,
        },
        9 => {
            let item_type = match read_u32(d, p) {
                Some(v) => v,
                None => {
                    return None;
                },
            };
            let count = match read_u64(d, p + 4) {
                Some(v) => v,
                None => {
                    return None;
                },
            };
            match read_values(d, p + 12, item_type, count) {
                Some((vs, q)) => {
                    let v = MetadataValue::Array(vs);
                    assert(v@->Array_0 =~= views(vs@));
                    Some((v, q))
                },
                None => None,
            }
        },
        10 => match read_u64(d, p) {
            Some(v) => Some((MetadataValue::U64(v), p + 8)),
            None => None,
        },
        11 => match read_u64(d, p) {
            Some(v) => Some((MetadataValue::I64(#[verifier::truncate] (v as i64)), p + 8)),
            None => None,
        },
        12 => match read_u64(d, p) {
            Some(v) => Some((MetadataValue::F64(v), p + 8)),
            None => None,
        },
        _ => None,
    }
}

/// Read `count` values of one type from `p` on.
fn read_values(d: &[u8], p: usize, t: u32, count: u64) -> (r: Option<(Vec<MetadataValue>, usize)>)
    requires
        12 <= p <= d@.len(),
    ensures
        match r {
            Some((vs, q)) => values_at(d@, p as int, t, count as nat) == Some((views(vs@), q as int)) && p <= q
                <= d@.len(),
            None => values_at(d@, p as int, t, count as nat) is None,
        },
    decreases d@.len() - p + 1,
{
    let mut out: Vec<MetadataValue> = Vec::new();
    let mut pos: usize = p;
    let mut left: u64 = count;
    proof {
        match values_at(d@, p as int, t, count as nat) {
            Some((vs, e)) => {
                assert(views(out@) + vs =~= vs);
            },
            None => {},
        }
    }
    while left > 0
        invariant
            12 <= p <= pos <= d@.len(),
            left <= count,
            values_at(d@, p as int, t, count as nat) == match values_at(d@, pos as int, t, left as nat) {
                Some((vs, e)) => Some((views(out@) + vs, e)),
                None => None,
            },
        decreases left,
    {
        match read_value(d, pos, t) {
            Some((v, q)) => {
                proof {
                    broadcast use group_views;

                    match values_at(d@, q as int, t, (left - 1) as nat) {
                        Some((vs, e)) => {
                            assert(views(out@) + (seq![v@] + vs) =~= views(out@.push(v)) + vs);
                        },
                        None => {},
                    }
                }
                out.push(v);
                pos = q;
                left -= 1;
            },
            None => {
                return None;
            },
        }
    }
    assert(views(out@) + Seq::<MetaView>::empty() =~= views(out@));
    Some((out, pos))
}

// ---------------------------------------------------------------------------
// Tensors
// ---------------------------------------------------------------------------

/// Describes one tensor.
#[derive(Debug)]
pub struct TensorInfo {
    /// Name, such as "blk.0.attn_q.weight".
    pub name: String,
    /// Number of dimensions.
    pub n_dims: u32,
    /// Extent in each dimension.
    pub dims: [u64; 4],
    pub dtype: GgmlType,
    /// Byte offset from the start of the tensor data.
    pub offset: u64,
}

/// What a tensor descriptor holds.
#[verifier::ext_equal]
pub struct TensorView {
    pub name: Seq<char>,
    pub n_dims: u32,
    pub dims: Seq<u64>,
    pub dtype: GgmlType,
    pub offset: u64,
}

impl View for TensorInfo {
    type V = TensorView;

    open spec fn view(&self) -> TensorView {
        TensorView {
            name: self.name@,
            n_dims: self.n_dims,
            dims: self.dims@,
            dtype: self.dtype,
            offset: self.offset,
        }
    }
}

/// The product of the first `n` extents.
pub open spec fn extent_product(dims: Seq<u64>, n: int) -> int
    decreases n,
{
    if n <= 0 {
        1
    } else {
        extent_product(dims, n - 1) * dims[n - 1]
    }
}

impl TensorView {
    /// Number of elements.
    pub open spec fn elements(self) -> int {
        extent_product(self.dims, self.n_dims as int)
    }

    /// Number of bytes.
    pub open spec fn bytes(self) -> int {
        self.dtype.bytes_for(self.elements())
    }
}

proof fn lemma_product_nonneg(dims: Seq<u64>, n: int)
    ensures
        extent_product(dims, n) >= 0,
    decreases n,
{
    if n > 0 {
        lemma_product_nonneg(dims, n - 1);
        let a = extent_product(dims, n - 1);
        let b = dims[n - 1] as int;
        assert(a * b >= 0) by (nonlinear_arith)
            requires
                a >= 0,
                b >= 0,
        ;
    }
}

/// A product grows with further extents, none of which is zero.
proof fn lemma_product_grows(dims: Seq<u64>, k: int, n: int)
    requires
        0 <= k <= n <= dims.len(),
        forall|i: int| 0 <= i < n ==> #[trigger] dims[i] >= 1,
    ensures
        extent_product(dims, k) <= extent_product(dims, n),
    decreases n - k,
{
    if k < n {
        lemma_product_grows(dims, k, n - 1);
        lemma_product_nonneg(dims, n - 1);
        let a = extent_product(dims, n - 1);
        let b = dims[n - 1] as int;
        assert(a * b >= a) by (nonlinear_arith)
            requires
                a >= 0,
                b >= 1,
        ;
    }
}

proof fn lemma_product_zero(dims: Seq<u64>, k: int, n: int)
    requires
        0 <= k < n <= dims.len(),
        dims[k] == 0,
    ensures
        extent_product(dims, n) == 0,
    decreases n,
{
    if k < n - 1 {
        lemma_product_zero(dims, k, n - 1);
    }
    let a = extent_product(dims, n - 1);
    let b = dims[n - 1] as int;
    assert(a * b == 0) by (nonlinear_arith)
        requires
            a == 0 || b == 0,
    ;
}

impl TensorInfo {
    /// Total number of elements.
    pub fn n_elements(&self) -> (r: usize)
        requires
            self.n_dims <= 4,
            forall|k: int| 0 <= k < self.n_dims ==> #[trigger] self.dims@[k] <= usize::MAX,
            forall|k: int| 0 <= k <= self.n_dims ==> #[trigger] extent_product(self.dims@, k) <= usize::MAX,
        ensures
            r == self@.elements(),
    {
        let mut n: usize = 1;
        let mut i: usize = 0;
        while i < self.n_dims as usize
            invariant
                self.n_dims <= 4,
                i <= self.n_dims,
                forall|k: int| 0 <= k < self.n_dims ==> #[trigger] self.dims@[k] <= usize::MAX,
                forall|k: int| 0 <= k <= self.n_dims ==> #[trigger] extent_product(self.dims@, k) <= usize::MAX,
                n == extent_product(self.dims@, i as int),
            decreases self.n_dims - i,
        {
            assert(extent_product(self.dims@, i + 1) <= usize::MAX);
            assert(self.dims@[i as int] <= usize::MAX);
            n = n * self.dims[i] as usize;
            i += 1;
        }
        n
    }

    /// Number of elements, where it fits a `u128`.
    fn checked_elements(&self) -> (r: Option<u128>)
        requires
            self.n_dims <= 4,
        ensures
            match r {
                Some(n) => n == self@.elements(),
                None => self@.elements() > u128::MAX,
            },
    {
        let dims = self.dims;
        let count = self.n_dims as usize;
        let mut i: usize = 0;
        while i < count
            invariant
                dims@ == self.dims@,
                count == self.n_dims,
                count <= 4,
                i <= count,
                forall|k: int| 0 <= k < i ==> #[trigger] dims@[k] >= 1,
            decreases count - i,
        {
            if dims[i] == 0 {
                proof {
                    lemma_product_zero(dims@, i as int, count as int);
                }
                return Some(0);
            }
            i += 1;
        }
        let mut n: u128 = 1;
        let mut i: usize = 0;
        while i < count
            invariant
                dims@ == self.dims@,
                count == self.n_dims,
                count <= 4,
                i <= count,
                forall|k: int| 0 <= k < count ==> #[trigger] dims@[k] >= 1,
                n == extent_product(dims@, i as int),
            decreases count - i,
        {
            match n.checked_mul(dims[i] as u128) {
                Some(m) => {
                    n = m;
                },
                None => {
                    proof {
                        lemma_product_grows(dims@, i + 1, count as int);
                    }
                    return None;
                },
            }
            i += 1;
        }
        Some(n)
    }

    /// Number of elements, where it fits a `usize`.
    pub fn counted_elements(&self) -> (r: Option<usize>)
        requires
            self.n_dims <= 4,
        ensures
            match r {
                Some(n) => n == self@.elements(),
                None => self@.elements() > usize::MAX,
            },
    {
        match self.checked_elements() {
            Some(n) => if n <= usize::MAX as u128 {
                Some(n as usize)
            } else {
                None
            },
            None => None,
        }
    }

    /// Total bytes, where they fit a `u64`.
    fn checked_bytes(&self) -> (r: Option<u64>)
        requires
            self.n_dims <= 4,
        ensures
            match r {
                Some(n) => n == self@.bytes(),
                None => self@.bytes() > u64::MAX,
            },
    {
        let unit = self.dtype.element_size() as u128;
        let block = self.dtype.block_size() as u128;
        if unit == 0 {
            proof {
                let x = (self@.elements() + self.dtype.unit_elements() - 1) / self.dtype.unit_elements();
                assert(x * 0 == 0) by (nonlinear_arith);
            }
            return Some(0);
        }
        let limit: u128 = 0x1000_0000_0000_0000_0000_0000;
        match self.checked_elements() {
            Some(n) if n <= limit => {
                let blocks = (n + (block - 1)) / block;
                assert(blocks <= 0x1000_0000_0000_0000_0000_0000) by {
                    if block == 1 {
                        assert(blocks == n);
                    } else {
                        assert(block == 32);
                        assert(blocks == (n + 31) / 32);
                    }
                }
                assert(blocks * unit <= 0x1000_0000_0000_0000_0000_0000 * 40) by (nonlinear_arith)
                    requires
                        blocks <= 0x1000_0000_0000_0000_0000_0000,
                        unit <= 40,
                ;
                let total = blocks * unit;
                if total > u64::MAX as u128 {
                    None
                } else {
                    Some(total as u64)
                }
            },
            _ => {
                proof {
                    let x = (self@.elements() + self.dtype.unit_elements() - 1) / self.dtype.unit_elements();
                    let u = self.dtype.unit_bytes();
                    assert(x >= 0x80_0000_0000_0000_0000_0000);
                    assert(x * u > u64::MAX) by (nonlinear_arith)
                        requires
                            x >= 0x80_0000_0000_0000_0000_0000,
                            u >= 2,
                    ;
                }
                None
            },
        }
    }

    /// Total bytes this tensor occupies.
    pub fn byte_size(&self) -> (r: usize)
        requires
            self.n_dims <= 4,
            forall|k: int| 0 <= k < self.n_dims ==> #[trigger] self.dims@[k] <= usize::MAX,
            forall|k: int| 0 <= k <= self.n_dims ==> #[trigger] extent_product(self.dims@, k) <= usize::MAX,
            self@.elements() + self.dtype.unit_elements() - 1 <= usize::MAX,
            self@.bytes() <= usize::MAX,
        ensures
            r == self@.bytes(),
    {
        self.dtype.tensor_bytes(self.n_elements())
    }
}

// ---------------------------------------------------------------------------
// The file
// ---------------------------------------------------------------------------

/// A parsed file.
pub struct GgufFile<'a> {
    /// The whole file.
    pub data: &'a [u8],
    /// Format version.
    pub version: u32,
    /// Metadata entries.
    pub metadata: TextMap<MetadataValue>,
    /// Tensor descriptors, by name.
    pub tensors: TextMap<TensorInfo>,
    /// Where the tensor data begins.
    pub tensor_data_offset: usize,
}

/// What a parsed file holds.
pub struct GgufView {
    pub data: Seq<u8>,
    pub version: u32,
    pub metadata: Seq<(Seq<char>, MetaView)>,
    pub tensors: Seq<(Seq<char>, TensorView)>,
    pub tensor_data_offset: int,
}

impl<'a> View for GgufFile<'a> {
    type V = GgufView;

    open spec fn view(&self) -> GgufView {
        GgufView {
            data: self.data@,
            version: self.version,
            metadata: self.metadata@,
            tensors: self.tensors@,
            tensor_data_offset: self.tensor_data_offset as int,
        }
    }
}

/// `count` metadata entries from `p` on, added to those in `acc`. A later entry takes
/// the place of an earlier one with the same key.
pub open spec fn metadata_at(
    d: Seq<u8>,
    p: int,
    count: nat,
    acc: Seq<(Seq<char>, MetaView)>,
) -> Result<(Seq<(Seq<char>, MetaView)>, int), Seq<char>>
    decreases count,
{
    if count == 0 {
        Ok((acc, p))
    } else {
        match text_at(d, p) {
            None => Err("GGUF: truncated metadata key"@),
            Some((key, q)) => match u32_at(d, q) {
                None => Err("GGUF: truncated metadata value type"@),
                Some(t) => match value_at(d, q + 4, t) {
                    None => Err("GGUF: truncated metadata value"@),
                    Some((v, e)) => metadata_at(d, e, (count - 1) as nat, map_put(acc, key, v)),
                },
            },
        }
    }
}

/// The extents from the `k`-th to the last of `n`, put over those in `acc`.
pub open spec fn dims_at(d: Seq<u8>, p: int, k: int, n: int, acc: Seq<u64>) -> Option<(Seq<u64>, int)>
    decreases n - k,
{
    if k >= n {
        Some((acc, p))
    } else {
        match u64_at(d, p) {
            Some(v) => dims_at(d, p + 8, k + 1, n, acc.update(k, v)),
            None => None,
        }
    }
}

/// The type that a number stands for.
pub open spec fn type_of_code(v: u32) -> Option<GgmlType> {
    if exists|t: GgmlType| t.code() == v {
        Some(choose|t: GgmlType| t.code() == v)
    } else {
        None
    }
}

/// A tensor descriptor at `p`, and the position behind it.
pub open spec fn tensor_at(d: Seq<u8>, p: int) -> Result<(TensorView, int), Seq<char>> {
    match text_at(d, p) {
        None => Err("GGUF: truncated tensor name"@),
        Some((name, q)) => match u32_at(d, q) {
            None => Err("GGUF: truncated tensor dims"@),
            Some(n_dims) => if n_dims > 4 {
                Err("GGUF: tensor has more than 4 dimensions"@)
            } else {
                match dims_at(d, q + 4, 0, n_dims as int, seq![0u64, 0u64, 0u64, 0u64]) {
                    None => Err("GGUF: truncated tensor dim"@),
                    Some((dims, e)) => match u32_at(d, e) {
                        None => Err("GGUF: truncated tensor type"@),
                        Some(code) => match type_of_code(code) {
                            None => Err("GGUF: unknown tensor data type"@),
                            Some(dtype) => match u64_at(d, e + 4) {
                                None => Err("GGUF: truncated tensor offset"@),
                                Some(offset) => Ok((TensorView { name, n_dims, dims, dtype, offset }, e + 12)),
                            },
                        },
                    },
                }
            },
        },
    }
}

/// `count` tensor descriptors from `p` on, added to those in `acc`.
pub open spec fn tensors_at(
    d: Seq<u8>,
    p: int,
    count: nat,
    acc: Seq<(Seq<char>, TensorView)>,
) -> Result<(Seq<(Seq<char>, TensorView)>, int), Seq<char>>
    decreases count,
{
    if count == 0 {
        Ok((acc, p))
    } else {
        match tensor_at(d, p) {
            Err(e) => Err(e),
            Ok((t, q)) => tensors_at(d, q, (count - 1) as nat, map_put(acc, t.name, t)),
        }
    }
}

/// Every tensor has at most four dimensions.
pub open spec fn dims_fit(tensors: Seq<(Seq<char>, TensorView)>) -> bool {
    forall|i: int| 0 <= i < tensors.len() ==> (#[trigger] tensors[i]).1.n_dims <= 4
}

proof fn lemma_put_dims(tensors: Seq<(Seq<char>, TensorView)>, k: Seq<char>, t: TensorView)
    requires
        dims_fit(tensors),
        t.n_dims <= 4,
    ensures
        dims_fit(map_put(tensors, k, t)),
{
    lemma_rank(tensors, k);
    let p = key_rank(tensors, k);
    let after = map_put(tensors, k, t);
    assert forall|i: int| 0 <= i < after.len() implies (#[trigger] after[i]).1.n_dims <= 4 by {
        if i != p {
            let a = if has_key(tensors, k) || i < p { i } else { i - 1 };
            assert(after[i] == tensors[a]);
        }
    }
}

/// The alignment of the tensor data.
pub open spec fn alignment_of(metadata: Seq<(Seq<char>, MetaView)>) -> u32 {
    match map_get(metadata, "general.alignment"@) {
        Some(v) => match v.u32_value() {
            Some(a) => a,
            None => DEFAULT_ALIGNMENT,
        },
        None => DEFAULT_ALIGNMENT,
    }
}

/// A position rounded up to an alignment by masking its low bits. An alignment of zero
/// masks all bits.
pub open spec fn aligned_position(p: int, alignment: u32) -> int {
    if alignment == 0 {
        0
    } else if p + alignment - 1 > u64::MAX {
        p + alignment - 1
    } else {
        (((p + alignment - 1) as u64) & !((alignment - 1) as u64)) as int
    }
}

/// What a file is parsed as.
pub open spec fn parsed_file(d: Seq<u8>) -> Result<GgufView, Seq<char>> {
    match u32_at(d, 0) {
        None => Err("GGUF: truncated magic"@),
        Some(magic) => if magic != GGUF_MAGIC {
            Err("GGUF: invalid magic (not a GGUF file)"@)
        } else {
            match u32_at(d, 4) {
                None => Err("GGUF: truncated version"@),
                Some(version) => if version != GGUF_VERSION_2 && version != GGUF_VERSION_3 {
                    Err("GGUF: unsupported version (need v2 or v3)"@)
                } else {
                    parsed_body(d, version)
                },
            }
        },
    }
}

/// What follows the version.
pub open spec fn parsed_body(d: Seq<u8>, version: u32) -> Result<GgufView, Seq<char>> {
    match u64_at(d, 8) {
        None => Err("GGUF: truncated tensor count"@),
        Some(tensor_count) => match u64_at(d, 16) {
            None => Err("GGUF: truncated metadata count"@),
            Some(kv_count) => if tensor_count > MAX_COUNT || kv_count > MAX_COUNT {
                Err("GGUF: unreasonable tensor/metadata count"@)
            } else {
                match metadata_at(d, 24, kv_count as nat, Seq::empty()) {
                    Err(e) => Err(e),
                    Ok((metadata, p)) => match tensors_at(d, p, tensor_count as nat, Seq::empty()) {
                        Err(e) => Err(e),
                        Ok((tensors, q)) => {
                            let start = aligned_position(q, alignment_of(metadata));
                            if start > d.len() {
                                Err("GGUF: tensor data offset past end of file"@)
                            } else {
                                Ok(GgufView { data: d, version, metadata, tensors, tensor_data_offset: start })
                            }
                        },
                    },
                }
            },
        },
    }
}

/// Read `count` metadata entries from `p` on.
fn read_metadata(d: &[u8], p: usize, count: u64) -> (r: Result<(TextMap<MetadataValue>, usize), &'static str>)
    requires
        p <= d@.len(),
    ensures
        match r {
            Ok((m, q)) => metadata_at(d@, p as int, count as nat, Seq::empty()) == Ok::<
                (Seq<(Seq<char>, MetaView)>, int),
                Seq<char>,
            >((m@, q as int)) && q <= d@.len() && p <= q && keys_ordered(m@),
            Err(e) => metadata_at(d@, p as int, count as nat, Seq::empty()) == Err::<
                (Seq<(Seq<char>, MetaView)>, int),
                Seq<char>,
            >(e@),
        },
{
    let mut map: TextMap<MetadataValue> = TextMap::new();
    let n = d.len();
    let mut pos: usize = p;
    let mut left: u64 = count;
    while left > 0
        invariant
            p <= pos <= d@.len(),
            n == d@.len(),
            left <= count,
            keys_ordered(map@),
            metadata_at(d@, p as int, count as nat, Seq::empty()) == metadata_at(d@, pos as int, left as nat, map@),
        decreases left,
    {
        let (key, q) = match read_text(d, pos) {
            Some(kq) => kq,
            None => {
                return Err("GGUF: truncated metadata key");
            },
        };
        let t = match read_u32(d, q) {
            Some(t) => t,
            None => {
                return Err("GGUF: truncated metadata value type");
            },
        };
        let (v, e) = match read_value(d, q + 4, t) {
            Some(ve) => ve,
            None => {
                return Err("GGUF: truncated metadata value");
            },
        };
        map.put(key, v);
        pos = e;
        left -= 1;
    }
    Ok((map, pos))
}

/// Read one tensor descriptor at `p`.
fn read_tensor(d: &[u8], p: usize) -> (r: Result<(TensorInfo, usize), &'static str>)
    requires
        p <= d@.len(),
    ensures
        match r {
            Ok((t, q)) => tensor_at(d@, p as int) == Ok::<(TensorView, int), Seq<char>>((t@, q as int)) && p <= q
                <= d@.len() && t.n_dims <= 4,
            Err(e) => tensor_at(d@, p as int) == Err::<(TensorView, int), Seq<char>>(e@),
        },
{
    let len = d.len();
    let (name, q) = match read_text(d, p) {
        Some(nq) => nq,
        None => {
            return Err("GGUF: truncated tensor name");
        },
    };
    let n_dims = match read_u32(d, q) {
        Some(n) => n,
        None => {
            return Err("GGUF: truncated tensor dims");
        },
    };
    if n_dims > 4 {
        return Err("GGUF: tensor has more than 4 dimensions");
    }
    let mut dims: [u64; 4] = [0u64, 0u64, 0u64, 0u64];
    let mut pos: usize = q + 4;
    let mut k: usize = 0;
    let ghost zero = seq![0u64, 0u64, 0u64, 0u64];
    assert(dims@ =~= zero);
    while k < n_dims as usize
        invariant
            n_dims <= 4,
            k <= n_dims,
            p <= q,
            q + 4 <= pos <= d@.len(),
            len == d@.len(),
            text_at(d@, p as int) == Some((name@, q as int)),
            u32_at(d@, q as int) == Some(n_dims),
            zero == seq![0u64, 0u64, 0u64, 0u64],
            dims_at(d@, q + 4, 0, n_dims as int, zero) == dims_at(d@, pos as int, k as int, n_dims as int, dims@),
        decreases n_dims - k,
    {
        match read_u64(d, pos) {
            Some(v) => {
                dims[k] = v;
                pos += 8;
                k += 1;
            },
            None => {
                return Err("GGUF: truncated tensor dim");
            },
        }
    }
    let code = match read_u32(d, pos) {
        Some(c) => c,
        None => {
            return Err("GGUF: truncated tensor type");
        },
    };
    let dtype = match GgmlType::from_u32(code) {
        Some(t) => t,
        None => {
            proof {
                lemma_no_type(code);
            }
            return Err("GGUF: unknown tensor data type");
        },
    };
    proof {
        lemma_type_of_code(dtype);
    }
    let offset = match read_u64(d, pos + 4) {
        Some(o) => o,
        None => {
            return Err("GGUF: truncated tensor offset");
        },
    };
    Ok((TensorInfo { name, n_dims, dims, dtype, offset }, pos + 12))
}

/// A type is found under its number.
pub proof fn lemma_type_of_code(t: GgmlType)
    ensures
        type_of_code(t.code()) == Some(t),
{
    let c = choose|c: GgmlType| c.code() == t.code();
    assert(c.code() == t.code());
    assert(c == t);
}

proof fn lemma_no_type(v: u32)
    requires
        v > 23 || v == 4 || v == 5,
    ensures
        type_of_code(v) is None,
{
    if exists|t: GgmlType| t.code() == v {
        let t = choose|t: GgmlType| t.code() == v;
        assert(t.code() <= 23 && t.code() != 4 && t.code() != 5);
    }
}

/// Read `count` tensor descriptors from `p` on.
fn read_tensors(d: &[u8], p: usize, count: u64) -> (r: Result<(TextMap<TensorInfo>, usize), &'static str>)
    requires
        p <= d@.len(),
    ensures
        match r {
            Ok((m, q)) => tensors_at(d@, p as int, count as nat, Seq::empty()) == Ok::<
                (Seq<(Seq<char>, TensorView)>, int),
                Seq<char>,
            >((m@, q as int)) && q <= d@.len() && p <= q && keys_ordered(m@) && dims_fit(m@),
            Err(e) => tensors_at(d@, p as int, count as nat, Seq::empty()) == Err::<
                (Seq<(Seq<char>, TensorView)>, int),
                Seq<char>,
            >(e@),
        },
{
    let mut map: TextMap<TensorInfo> = TextMap::new();
    let mut pos: usize = p;
    let mut left: u64 = count;
    while left > 0
        invariant
            p <= pos <= d@.len(),
            left <= count,
            keys_ordered(map@),
            dims_fit(map@),
            tensors_at(d@, p as int, count as nat, Seq::empty()) == tensors_at(d@, pos as int, left as nat, map@),
        decreases left,
    {
        let (t, q) = match read_tensor(d, pos) {
            Ok(tq) => tq,
            Err(e) => {
                return Err(e);
            },
        };
        proof {
            lemma_put_dims(map@, t@.name, t@);
        }
        map.put(text(t.name.as_str()), t);
        pos = q;
        left -= 1;
    }
    Ok((map, pos))
}

impl<'a> GgufFile<'a> {
    /// Parse a file. Header, metadata and tensor descriptors are read; tensor data is
    /// not copied.
    pub fn parse(data: &'a [u8]) -> (r: Result<Self, &'static str>)
        ensures
            match r {
                Ok(f) => {
                    &&& parsed_file(data@) == Ok::<GgufView, Seq<char>>(f@)
                    &&& f.data == data
                    &&& keys_ordered(f@.metadata)
                    &&& keys_ordered(f@.tensors)
                    &&& dims_fit(f@.tensors)
                    &&& f.tensor_data_offset <= data@.len()
                },
                Err(e) => parsed_file(data@) == Err::<GgufView, Seq<char>>(e@),
            },
    {
        let magic = match read_u32(data, 0) {
            Some(m) => m,
            None => {
                return Err("GGUF: truncated magic");
            },
        };
        if magic != GGUF_MAGIC {
            return Err("GGUF: invalid magic (not a GGUF file)");
        }
        let version = match read_u32(data, 4) {
            Some(v) => v,
            None => {
                return Err("GGUF: truncated version");
            },
        };
        if version != GGUF_VERSION_2 && version != GGUF_VERSION_3 {
            return Err("GGUF: unsupported version (need v2 or v3)");
        }
        Self::parse_body(data, version)
    }

    /// Parse what follows the version.
    fn parse_body(data: &'a [u8], version: u32) -> (r: Result<Self, &'static str>)
        ensures
            match r {
                Ok(f) => {
                    &&& parsed_body(data@, version) == Ok::<GgufView, Seq<char>>(f@)
                    &&& f.data == data
                    &&& keys_ordered(f@.metadata)
                    &&& keys_ordered(f@.tensors)
                    &&& dims_fit(f@.tensors)
                    &&& f.tensor_data_offset <= data@.len()
                },
                Err(e) => parsed_body(data@, version) == Err::<GgufView, Seq<char>>(e@),
            },
    {
        let tensor_count = match read_u64(data, 8) {
            Some(c) => c,
            None => {
                return Err("GGUF: truncated tensor count");
            },
        };
        let kv_count = match read_u64(data, 16) {
            Some(c) => c,
            None => {
                return Err("GGUF: truncated metadata count");
            },
        };
        if tensor_count > MAX_COUNT || kv_count > MAX_COUNT {
            return Err("GGUF: unreasonable tensor/metadata count");
        }
        let (metadata, p) = match read_metadata(data, 24, kv_count) {
            Ok(mp) => mp,
            Err(e) => {
                return Err(e);
            },
        };
        let alignment = match metadata.get("general.alignment") {
            Some(v) => match v.as_u32() {
                Some(a) => a,
                None => DEFAULT_ALIGNMENT,
            },
            None => DEFAULT_ALIGNMENT,
        };
        let (tensors, q) = match read_tensors(data, p, tensor_count) {
            Ok(tq) => tq,
            Err(e) => {
                return Err(e);
            },
        };
        let len = data.len() as u64;
        let start = match align_up(q as u64, alignment) {
            Some(p) => p,
            None => {
                return Err("GGUF: tensor data offset past end of file");
            },
        };
        if start > len {
            return Err("GGUF: tensor data offset past end of file");
        }
        let file = GgufFile { data, version, metadata, tensors, tensor_data_offset: start as usize };
        assert(file@.tensor_data_offset == start);
        Ok(file)
    }

    /// The bytes of a named tensor; none where there is no such tensor or the file
    /// does not hold all of them.
    pub fn tensor_data(&self, name: &str) -> (r: Option<&'a [u8]>)
        requires
            self.tensor_data_offset <= self.data@.len(),
            dims_fit(self@.tensors),
        ensures
            match map_get(self@.tensors, name@) {
                Some(t) => {
                    let start = self@.tensor_data_offset + t.offset;
                    let end = start + t.bytes();
                    if end > self.data@.len() {
                        r is None
                    } else {
                        r matches Some(b) && b@ == self.data@.subrange(start, end)
                    }
                },
                None => r is None,
            },
    {
        let at = match self.tensors.find(name) {
            Some(i) => i,
            None => {
                return None;
            },
        };
        let info = self.tensors.value_at(at);
        assert(self@.tensors[at as int].1.n_dims <= 4);
        let len = self.data.len() as u64;
        let size = match info.checked_bytes() {
            Some(b) => b,
            None => {
                return None;
            },
        };
        let base = self.tensor_data_offset as u64;
        if info.offset > len - base {
            proof {
                lemma_product_nonneg(info@.dims, info@.n_dims as int);
                lemma_bytes_nonneg(info@);
            }
            return None;
        }
        let start = base + info.offset;
        if size > len - start {
            return None;
        }
        Some(vstd::slice::slice_subrange(self.data, start as usize, (start + size) as usize))
    }

    /// Get a metadata text.
    pub fn meta_str(&self, key: &str) -> (r: Option<&str>)
        ensures
            match r {
                Some(s) => map_get(self@.metadata, key@) matches Some(v) && v.text_value() == Some(s@),
                None => map_get(self@.metadata, key@) matches Some(v) ==> v.text_value() is None,
            },
    {
        match self.metadata.get(key) {
            Some(v) => v.as_str(),
            None => None,
        }
    }

    /// Get a metadata `u32`.
    pub fn meta_u32(&self, key: &str) -> (r: Option<u32>)
        ensures
            r == meta_u32_of(self@.metadata, key@),
    {
        match self.metadata.get(key) {
            Some(v) => v.as_u32(),
            None => None,
        }
    }

    /// Get a metadata `u64`.
    pub fn meta_u64(&self, key: &str) -> (r: Option<u64>)
        ensures
            r == match map_get(self@.metadata, key@) {
                Some(v) => v.u64_value(),
                None => None,
            },
    {
        match self.metadata.get(key) {
            Some(v) => v.as_u64(),
            None => None,
        }
    }

    /// Get a metadata floating-point number.
    pub fn meta_f32(&self, key: &str) -> (r: Option<FloatBits>)
        ensures
            r == meta_float_of(self@.metadata, key@),
    {
        match self.metadata.get(key) {
            Some(v) => v.as_f32(),
            None => None,
        }
    }
}

/// The `u32` that the metadata hold under a key.
pub open spec fn meta_u32_of(metadata: Seq<(Seq<char>, MetaView)>, key: Seq<char>) -> Option<u32> {
    match map_get(metadata, key) {
        Some(v) => v.u32_value(),
        None => None,
    }
}

/// The floating-point number that the metadata hold under a key.
pub open spec fn meta_float_of(metadata: Seq<(Seq<char>, MetaView)>, key: Seq<char>) -> Option<FloatBits> {
    match map_get(metadata, key) {
        Some(v) => v.float_value(),
        None => None,
    }
}

proof fn lemma_bytes_nonneg(t: TensorView)
    requires
        t.elements() >= 0,
    ensures
        t.bytes() >= 0,
{
    let x = (t.elements() + t.dtype.unit_elements() - 1) / t.dtype.unit_elements();
    let u = t.dtype.unit_bytes();
    assert(x >= 0);
    assert(x * u >= 0) by (nonlinear_arith)
        requires
            x >= 0,
            u >= 0,
    ;
}

/// Round a position up to an alignment; none where that exceeds a `u64`.
fn align_up(offset: u64, alignment: u32) -> (r: Option<u64>)
    ensures
        match r {
            Some(p) => p == aligned_position(offset as int, alignment),
            None => aligned_position(offset as int, alignment) > u64::MAX,
        },
{
    if alignment == 0 {
        return Some(0);
    }
    let low = alignment as u64 - 1;
    if offset > u64::MAX - low {
        return None;
    }
    Some((offset + low) & !low)
}

} // verus!
