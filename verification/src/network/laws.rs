//! What holds of responses whose body comes in chunks.

use vstd::prelude::*;
use vstd::utf8::*;

use crate::network::http::{
    blank_line, chunk_size, chunked_head, crlf, last_chunk, response_of, status_in, unchunked,
};
use crate::network::tls::chunks_complete;
use crate::text::{
    contains, digit_value, digits_value, find, is_space, lemma_find_from, number, occurs_at, trim, trim_end,
    trim_start,
};

verus! {

/// A chunk of a body, as a server writes it.
pub struct Chunk {
    /// The length of the data in hexadecimal digits, in either case.
    pub size: Seq<char>,
    /// What follows the size in its line: nothing, or a semicolon and more.
    pub extension: Seq<char>,
    pub data: Seq<u8>,
}

impl Chunk {
    /// The size is that of the data, which is not empty, and the extension ends no line.
    pub open spec fn wf(self) -> bool {
        &&& self.size.len() > 0
        &&& digits_value(self.size, true) == Some(self.data.len())
        &&& 0 < self.data.len() <= usize::MAX
        &&& self.extension.len() > 0 ==> self.extension[0] == ';'
        &&& !contains(self.extension, seq!['\r', '\n'])
    }

    /// The chunk's bytes: the size line and the data, each with a line end.
    pub open spec fn bytes(self) -> Seq<u8> {
        encode_utf8(self.size + self.extension) + crlf() + self.data + crlf()
    }
}

/// A body in chunks.
pub open spec fn in_chunks(chunks: Seq<Chunk>) -> Seq<u8>
    decreases chunks.len(),
{
    if chunks.len() == 0 {
        last_chunk()
    } else {
        chunks[0].bytes() + in_chunks(chunks.drop_first())
    }
}

/// The data of all chunks.
pub open spec fn joined(chunks: Seq<Chunk>) -> Seq<u8>
    decreases chunks.len(),
{
    if chunks.len() == 0 {
        Seq::empty()
    } else {
        chunks[0].data + joined(chunks.drop_first())
    }
}

/// The hexadecimal digit of a value below sixteen.
pub open spec fn hexadecimal_digit(d: nat, capital: bool) -> char {
    if d < 10 {
        (48 + d) as char
    } else if capital {
        (55 + d) as char
    } else {
        (87 + d) as char
    }
}

/// The hexadecimal notation of a number, without leading zeros.
pub open spec fn hexadecimal(n: nat, capital: bool) -> Seq<char>
    decreases n,
{
    if n < 16 {
        seq![hexadecimal_digit(n, capital)]
    } else {
        hexadecimal(n / 16, capital).push(hexadecimal_digit(n % 16, capital))
    }
}

/// A number's hexadecimal notation is read as that number, in either case.
pub proof fn law_hexadecimal_is_read(n: nat, capital: bool)
    ensures
        digits_value(hexadecimal(n, capital), true) == Some(n),
        hexadecimal(n, capital).len() > 0,
    decreases n,
{
    let s = hexadecimal(n, capital);
    let d = n % 16;
    assert(digit_value(hexadecimal_digit(d, capital), true) == Some(d));
    if n < 16 {
        assert(s.drop_last() =~= Seq::empty());
        assert(s.last() == hexadecimal_digit(d, capital));
        reveal_with_fuel(digits_value, 2);
    } else {
        law_hexadecimal_is_read(n / 16, capital);
        assert(s.drop_last() =~= hexadecimal(n / 16, capital));
    }
}

/// Every character of a row of digits is a digit.
proof fn lemma_all_digits(s: Seq<char>, i: int)
    requires
        digits_value(s, true) is Some,
        0 <= i < s.len(),
    ensures
        digit_value(s[i], true) is Some,
    decreases s.len(),
{
    if i < s.len() - 1 {
        lemma_all_digits(s.drop_last(), i);
    }
}

/// A text without white space at its ends is not trimmed.
proof fn lemma_nothing_to_trim(s: Seq<char>)
    requires
        s.len() > 0,
        !is_space(s[0]),
        !is_space(s.last()),
    ensures
        trim(s) == s,
{
    assert(s.skip(0) =~= s);
}

/// Trimming the end of a text keeps what stands up to a character that is no space.
proof fn lemma_trim_end_keeps(s: Seq<char>, n: int)
    requires
        0 <= n < s.len(),
        !is_space(s[n]),
    ensures
        n < trim_end(s).len() <= s.len(),
        trim_end(s) == s.take(trim_end(s).len() as int),
    decreases s.len(),
{
    if is_space(s.last()) {
        lemma_trim_end_keeps(s.drop_last(), n);
        assert(s.drop_last().take(trim_end(s).len() as int) =~= s.take(trim_end(s).len() as int));
    } else {
        assert(s.take(s.len() as int) =~= s);
    }
}

/// The size line of a chunk gives its size.
proof fn lemma_size_is_read(size: Seq<char>, extension: Seq<char>, n: nat)
    requires
        size.len() > 0,
        digits_value(size, true) == Some(n),
        n <= usize::MAX,
        extension.len() > 0 ==> extension[0] == ';',
    ensures
        chunk_size(encode_utf8(size + extension)) == Some(n),
{
    let s = size + extension;
    encode_utf8_valid_utf8(s);
    encode_utf8_decode_utf8(s);
    lemma_all_digits(size, 0);
    lemma_all_digits(size, size.len() - 1);
    assert(s[0] == size[0]);
    assert(s.skip(0) =~= s);
    assert(trim_start(s) == s);
    let last = if extension.len() > 0 {
        assert(s[size.len() as int] == ';');
        size.len() as int
    } else {
        assert(s[size.len() - 1] == size.last());
        size.len() - 1
    };
    lemma_trim_end_keeps(s, last);
    let t = trim(s);
    lemma_find_from(t, seq![';'], 0);
    assert forall|q: int| 0 <= q < size.len() implies !occurs_at(t, seq![';'], q) by {
        lemma_all_digits(size, q);
        assert(t[q] == size[q]);
        if occurs_at(t, seq![';'], q) {
            assert(t.subrange(q, q + 1)[0] == ';');
        }
    }
    if extension.len() > 0 {
        let k = size.len() as int;
        assert(t.subrange(k, k + 1) =~= seq![';']);
        assert(occurs_at(t, seq![';'], k));
        assert(find(t, seq![';']) == Some(k));
        assert(t.take(k) =~= size);
    } else {
        assert(t =~= size);
        assert(find(t, seq![';']) is None);
    }
    lemma_nothing_to_trim(size);
    assert(number(size, true, usize::MAX as nat) == Some(n));
}

/// A character beyond ASCII is written in bytes beyond ASCII.
proof fn lemma_wide_bytes(c: u32)
    by (bit_vector)
    ensures
        0x80 | (c & 0x3F) as u8 >= 0x80,
        0x80 | ((c >> 6) & 0x3F) as u8 >= 0x80,
        0x80 | ((c >> 12) & 0x3F) as u8 >= 0x80,
        0xC0 | ((c >> 6) & 0x1F) as u8 >= 0x80,
        0xE0 | ((c >> 12) & 0x0F) as u8 >= 0x80,
        0xF0 | ((c >> 18) & 0x7) as u8 >= 0x80,
        c <= 0x7F ==> (c & 0x7F) as u8 == c,
{
}

/// A character's bytes are ASCII only where it is itself, and then it is one byte.
proof fn lemma_scalar_bytes(c: char)
    ensures
        encode_scalar(c as u32).len() > 0,
        (c as u32) < 0x80 ==> encode_scalar(c as u32).len() == 1 && encode_scalar(c as u32)[0] as u32 == c as u32,
        c as u32 == 13 ==> c == '\r',
        c as u32 == 10 ==> c == '\n',
        (c as u32) >= 0x80 ==> forall|i: int|
            0 <= i < encode_scalar(c as u32).len() ==> #[trigger] encode_scalar(c as u32)[i] >= 0x80,
{
    char_is_scalar(c);
    lemma_wide_bytes(c as u32);
}

/// A line ends at this byte.
spec fn line_end_at(b: Seq<u8>, q: int) -> bool {
    b[q] == 13 && b[q + 1] == 10
}

/// A line ends at this character.
spec fn line_ends_at(s: Seq<char>, k: int) -> bool {
    s[k] == '\r' && s[k + 1] == '\n'
}

/// The bytes of a text end a line only where the text does.
proof fn lemma_no_line_end(s: Seq<char>, q: int)
    requires
        forall|k: int| 0 <= k < s.len() - 1 ==> !line_ends_at(s, k),
        0 <= q < encode_utf8(s).len() - 1,
    ensures
        !line_end_at(encode_utf8(s), q),
    decreases s.len(),
{
    assert(s.len() > 0);
    let rest = s.drop_first();
    let e = encode_scalar(s[0] as u32);
    let r = encode_utf8(rest);
    lemma_scalar_bytes(s[0]);
    assert(encode_utf8(s) == e + r);
    if q >= e.len() {
        assert forall|k: int| 0 <= k < rest.len() - 1 implies !line_ends_at(rest, k) by {
            assert(!line_ends_at(s, k + 1));
        }
        lemma_no_line_end(rest, q - e.len());
        assert(!line_end_at(r, q - e.len()));
    } else if q == e.len() - 1 && e[q] == 13 && r[0] == 10 {
        assert((s[0] as u32) < 0x80);
        assert(s[0] as u32 == 13);
        lemma_scalar_bytes(rest[0]);
        assert(r[0] == encode_scalar(rest[0] as u32)[0]);
        assert(rest[0] as u32 == 10);
        assert(line_ends_at(s, 0));
    } else if (s[0] as u32) < 0x80 {
        assert(e.len() == 1);
    }
}

/// The first place where a line ends is the one that a search finds.
proof fn lemma_first_line_end(b: Seq<u8>, n: int)
    requires
        0 <= n,
        n + 2 <= b.len(),
        line_end_at(b, n),
        forall|q: int| 0 <= q < n ==> !line_end_at(b, q),
    ensures
        find(b, crlf()) == Some(n),
{
    let mark = crlf();
    assert(mark.len() == 2 && mark[0] == 13 && mark[1] == 10);
    lemma_find_from(b, mark, 0);
    assert(b.subrange(n, n + 2) =~= mark);
    assert(occurs_at(b, mark, n));
    let q = find(b, mark)->0;
    let here = b.subrange(q, q + 2);
    assert(here[0] == b[q] && here[1] == b[q + 1]);
    assert(line_end_at(b, q));
}

/// The first line end behind a line without one is its own.
proof fn lemma_line_end(line: Seq<u8>, rest: Seq<u8>)
    requires
        forall|q: int| 0 <= q < line.len() - 1 ==> !line_end_at(line, q),
    ensures
        find(line + crlf() + rest, crlf()) == Some(line.len() as int),
{
    let head = line + crlf();
    let b = head + rest;
    let n = line.len() as int;
    assert(head[n] == 13 && head[n + 1] == 10);
    assert(b[n] == head[n] && b[n + 1] == head[n + 1]);
    assert forall|q: int| 0 <= q < n implies !line_end_at(b, q) by {
        assert(b[q] == head[q] && head[q] == line[q]);
        assert(b[q + 1] == head[q + 1]);
        if q < n - 1 {
            assert(!line_end_at(line, q));
            assert(head[q + 1] == line[q + 1]);
        }
    }
    lemma_first_line_end(b, n);
}

/// The size line of a chunk holds no line end.
proof fn lemma_size_line(chunk: Chunk)
    requires
        chunk.wf(),
    ensures
        ({
            let line = encode_utf8(chunk.size + chunk.extension);
            forall|q: int| 0 <= q < line.len() - 1 ==> !line_end_at(line, q)
        }),
{
    let s = chunk.size + chunk.extension;
    let line = encode_utf8(s);
    assert forall|k: int| 0 <= k < s.len() - 1 implies !line_ends_at(s, k) by {
        if k < chunk.size.len() {
            lemma_all_digits(chunk.size, k);
            assert(s[k] == chunk.size[k]);
        } else {
            let j = k - chunk.size.len();
            lemma_find_from(chunk.extension, seq!['\r', '\n'], 0);
            assert(!occurs_at(chunk.extension, seq!['\r', '\n'], j));
            if s[k] == '\r' && s[k + 1] == '\n' {
                assert(chunk.extension[j] == s[k] && chunk.extension[j + 1] == s[k + 1]);
                assert(chunk.extension.subrange(j, j + 2) =~= seq!['\r', '\n']);
            }
        }
    }
    assert forall|q: int| 0 <= q < line.len() - 1 implies !line_end_at(line, q) by {
        lemma_no_line_end(s, q);
    }
}

/// A chunk adds its data to the body, and the body goes on behind it.
pub proof fn law_chunk_adds_data(chunk: Chunk, rest: Seq<u8>)
    requires
        chunk.wf(),
    ensures
        unchunked(chunk.bytes() + rest) == chunk.data + unchunked(rest),
{
    let line = encode_utf8(chunk.size + chunk.extension);
    lemma_size_is_read(chunk.size, chunk.extension, chunk.data.len());
    lemma_size_line(chunk);
    let b = chunk.bytes() + rest;
    let tail = chunk.data + crlf() + rest;
    assert(b =~= line + crlf() + tail);
    lemma_line_end(line, tail);
    let p = line.len() as int;
    let n = chunk.data.len();
    assert(b.take(p) =~= line);
    assert(b.subrange(p + 2, p + 2 + n) =~= chunk.data);
    assert(b.skip(p + 2 + n + 2) =~= rest);
}

/// The size line of the last chunk is read as zero.
proof fn lemma_last_size()
    ensures
        chunk_size(seq![48u8]) == Some(0nat),
{
    let size = seq!['0'];
    assert(digits_value(size, true) == Some(0nat)) by {
        assert(size.drop_last() =~= Seq::empty());
        reveal_with_fuel(digits_value, 2);
    }
    assert(size + Seq::<char>::empty() =~= size);
    lemma_size_is_read(size, Seq::empty(), 0);
    lemma_scalar_bytes('0');
    assert(size.drop_first() =~= Seq::empty());
    assert(encode_utf8(size) =~= seq![48u8]) by {
        reveal_with_fuel(encode_utf8, 2);
    }
}

/// The last chunk ends the body, whatever follows it.
pub proof fn law_last_chunk_ends(rest: Seq<u8>)
    ensures
        unchunked(last_chunk() + rest) == Seq::<u8>::empty(),
{
    lemma_last_size();
    let b = last_chunk() + rest;
    let tail = crlf() + rest;
    assert(b =~= seq![48u8] + crlf() + tail);
    lemma_line_end(seq![48u8], tail);
    assert(b.take(1) =~= seq![48u8]);
}

/// A body in chunks is the data of its chunks, one after another: also where the data
/// hold line ends, or look like a size line.
pub proof fn law_chunks_are_joined(chunks: Seq<Chunk>)
    requires
        forall|i: int| 0 <= i < chunks.len() ==> (#[trigger] chunks[i]).wf(),
    ensures
        unchunked(in_chunks(chunks)) == joined(chunks),
    decreases chunks.len(),
{
    if chunks.len() == 0 {
        law_last_chunk_ends(Seq::empty());
        assert(last_chunk() + Seq::<u8>::empty() =~= last_chunk());
    } else {
        let rest = chunks.drop_first();
        assert forall|i: int| 0 <= i < rest.len() implies (#[trigger] rest[i]).wf() by {
            assert(rest[i] == chunks[i + 1]);
        }
        law_chunks_are_joined(rest);
        law_chunk_adds_data(chunks[0], in_chunks(rest));
    }
}

/// Where a text is too short to hold its first line end, none is found.
proof fn lemma_cut_line(b: Seq<u8>, n: int, k: int)
    requires
        find(b, crlf()) == Some(n),
        0 <= k <= b.len(),
    ensures
        k < n + 2 ==> find(b.take(k), crlf()) is None,
        k >= n + 2 ==> find(b.take(k), crlf()) == Some(n),
{
    let mark = crlf();
    let t = b.take(k);
    assert(mark.len() == 2);
    lemma_find_from(b, mark, 0);
    lemma_find_from(t, mark, 0);
    if find(t, mark) is Some {
        let q = find(t, mark)->0;
        assert(t.subrange(q, q + 2) =~= b.subrange(q, q + 2));
        assert(occurs_at(b, mark, q));
    }
    if k >= n + 2 {
        assert(t.subrange(n, n + 2) =~= b.subrange(n, n + 2));
        assert(occurs_at(t, mark, n));
    }
}

/// Of the last chunk alone nothing but the whole is complete.
proof fn lemma_last_chunk_complete(k: int)
    requires
        0 <= k <= 5,
    ensures
        chunks_complete(last_chunk().take(k)) <==> k == 5,
{
    let b = last_chunk();
    let t = b.take(k);
    lemma_last_size();
    assert(b =~= seq![48u8] + crlf() + crlf());
    lemma_line_end(seq![48u8], crlf());
    lemma_cut_line(b, 1, k);
    if k >= 3 {
        assert(t.take(1) =~= seq![48u8]);
        let rest = t.skip(1);
        lemma_find_from(rest, blank_line(), 0);
        if k == 5 {
            assert(rest.subrange(0, 4) =~= blank_line());
            assert(occurs_at(rest, blank_line(), 0));
        }
    }
}

/// A body in chunks is complete exactly when all of it has come, whatever the data hold:
/// not before the last chunk has come to its end, and then at once.
pub proof fn law_chunks_are_complete(chunks: Seq<Chunk>, k: int)
    requires
        forall|i: int| 0 <= i < chunks.len() ==> (#[trigger] chunks[i]).wf(),
        0 <= k <= in_chunks(chunks).len(),
    ensures
        chunks_complete(in_chunks(chunks).take(k)) <==> k == in_chunks(chunks).len(),
    decreases chunks.len(),
{
    if chunks.len() == 0 {
        lemma_last_chunk_complete(k);
    } else {
        let rest = chunks.drop_first();
        assert forall|i: int| 0 <= i < rest.len() implies (#[trigger] rest[i]).wf() by {
            assert(rest[i] == chunks[i + 1]);
        }
        let chunk = chunks[0];
        let line = encode_utf8(chunk.size + chunk.extension);
        let b = in_chunks(chunks);
        let t = b.take(k);
        let p = line.len() as int;
        let n = chunk.data.len() as int;
        lemma_size_is_read(chunk.size, chunk.extension, chunk.data.len());
        lemma_size_line(chunk);
        let tail = chunk.data + crlf() + in_chunks(rest);
        assert(b =~= line + crlf() + tail);
        lemma_line_end(line, tail);
        lemma_cut_line(b, p, k);
        if k >= p + 2 {
            assert(t.take(p) =~= line);
            if k >= p + 2 + n + 2 {
                let j = k - (p + 2 + n + 2);
                assert(t.skip(p + 2 + n + 2) =~= in_chunks(rest).take(j));
                law_chunks_are_complete(rest, j);
            }
        }
    }
}

/// A response in chunks has the joined data for its body, where those are text: it does
/// not matter where the chunks divide it.
pub proof fn law_chunked_response(b: Seq<u8>, p: int, chunks: Seq<Chunk>)
    requires
        forall|i: int| 0 <= i < chunks.len() ==> (#[trigger] chunks[i]).wf(),
        find(b, blank_line()) == Some(p),
        valid_utf8(b.take(p)),
        chunked_head(decode_utf8(b.take(p))),
        b.skip(p + 4) == in_chunks(chunks),
        valid_utf8(joined(chunks)),
    ensures
        response_of(b) == match status_in(decode_utf8(b.take(p))) {
            Ok(status) => Ok((status, joined(chunks))),
            Err(e) => Err::<(u16, Seq<u8>), Seq<char>>(e),
        },
{
    law_chunks_are_joined(chunks);
}

} // verus!
