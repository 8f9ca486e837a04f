//! BPE tokenizer with a vocabulary from model metadata.
//!
//! Text starts as one token per character; a character without a token of its own is
//! spelled by byte tokens such as "<0x41>". Then the adjacent pair whose joined text
//! has the highest score is merged, again and again, until no pair can be merged.

use vstd::prelude::*;
use vstd::utf8::*;

use crate::inference::gguf::{meta_u32_of, GgufFile, GgufView, MetaView, MetadataValue};
use crate::inference::score::{greater, is_greater, minus_index_bits, single_bits, NEG_INFINITY_BITS};
use crate::text::{chars_of, hex_digit, text_eq, text_join};
use crate::text_map::map_get;
use crate::views::{group_views, views};

verus! {

/// A loaded vocabulary.
pub struct Tokenizer {
    /// Token texts, by token id.
    vocab: Vec<String>,
    /// Merge scores, by token id; the higher one is merged first.
    scores: Vec<u32>,
    /// Token that begins a sequence.
    pub bos_id: u32,
    /// Token that ends a sequence.
    pub eos_id: u32,
}

/// What a tokenizer holds.
#[verifier::ext_equal]
pub struct TokenizerView {
    pub vocab: Seq<Seq<char>>,
    pub scores: Seq<u32>,
    pub bos_id: u32,
    pub eos_id: u32,
}

impl View for Tokenizer {
    type V = TokenizerView;

    closed spec fn view(&self) -> TokenizerView {
        TokenizerView { vocab: views(self.vocab@), scores: self.scores@, bos_id: self.bos_id, eos_id: self.eos_id }
    }
}

/// A token's text in the metadata: an item that is no text counts as the empty one.
pub open spec fn token_text(v: MetaView) -> Seq<char> {
    match v {
        MetaView::String(s) => s,
        _ => Seq::empty(),
    }
}

/// A token's score in the metadata: an item that is no single-precision number counts
/// as zero.
pub open spec fn token_score(v: MetaView) -> u32 {
    match v {
        MetaView::F32(b) => b,
        _ => 0,
    }
}

/// The scores of a vocabulary: as given, or falling with the token id.
pub open spec fn scores_of(m: Option<MetaView>, vocab_len: nat) -> Seq<u32> {
    match m {
        Some(MetaView::Array(a)) => a.map_values(|v: MetaView| token_score(v)),
        _ => Seq::new(vocab_len, |i: int| (0x8000_0000 + single_bits(i as nat)) as u32),
    }
}

/// The tokenizer that a model file describes.
pub open spec fn tokenizer_of(gguf: GgufView) -> Result<TokenizerView, Seq<char>> {
    match map_get(gguf.metadata, "tokenizer.ggml.tokens"@) {
        None => Err("GGUF: missing tokenizer.ggml.tokens"@),
        Some(MetaView::Array(a)) => Ok(
            TokenizerView {
                vocab: a.map_values(|v: MetaView| token_text(v)),
                scores: scores_of(map_get(gguf.metadata, "tokenizer.ggml.scores"@), a.len()),
                bos_id: match meta_u32_of(gguf.metadata, "tokenizer.ggml.bos_token_id"@) {
                    Some(id) => id,
                    None => 1,
                },
                eos_id: match meta_u32_of(gguf.metadata, "tokenizer.ggml.eos_token_id"@) {
                    Some(id) => id,
                    None => 2,
                },
            },
        ),
        Some(_) => Err("GGUF: tokenizer.ggml.tokens is not an array"@),
    }
}

/// The first position of a text in the vocabulary from `i` on.
pub open spec fn position_from(vocab: Seq<Seq<char>>, s: Seq<char>, i: int) -> Option<int>
    decreases vocab.len() - i,
{
    if i < 0 || i >= vocab.len() {
        None
    } else if vocab[i] == s {
        Some(i)
    } else {
        position_from(vocab, s, i + 1)
    }
}

/// The text of the token for a byte, such as "<0x41>".
pub open spec fn byte_token(b: u8) -> Seq<char> {
    "<0x"@.push(hex_digit((b / 16) as nat)).push(hex_digit((b % 16) as nat)).push('>')
}

impl TokenizerView {
    /// The id of a text.
    pub open spec fn id_of(self, s: Seq<char>) -> Option<u32> {
        match position_from(self.vocab, s, 0) {
            Some(i) => Some(i as u32),
            None => None,
        }
    }

    /// The text of a token; none for an id outside the vocabulary.
    pub open spec fn text_of(self, id: u32) -> Seq<char> {
        if id < self.vocab.len() {
            self.vocab[id as int]
        } else {
            Seq::empty()
        }
    }

    /// The score of a token; zero where none is known.
    pub open spec fn score_of(self, id: u32) -> u32 {
        if id < self.scores.len() {
            self.scores[id as int]
        } else {
            0
        }
    }

    /// The tokens of the first `n` bytes; a byte without a token is left out.
    pub open spec fn byte_tokens(self, bytes: Seq<u8>, n: int) -> Seq<u32>
        decreases n,
    {
        if n <= 0 {
            Seq::empty()
        } else {
            match self.id_of(byte_token(bytes[n - 1])) {
                Some(id) => self.byte_tokens(bytes, n - 1).push(id),
                None => self.byte_tokens(bytes, n - 1),
            }
        }
    }

    /// The tokens of one character.
    pub open spec fn char_tokens(self, c: char) -> Seq<u32> {
        match self.id_of(seq![c]) {
            Some(id) => seq![id],
            None => self.byte_tokens(encode_utf8(seq![c]), encode_utf8(seq![c]).len() as int),
        }
    }

    /// The tokens of the first `n` characters, before any merge.
    pub open spec fn start_tokens(self, s: Seq<char>, n: int) -> Seq<u32>
        decreases n,
    {
        if n <= 0 {
            Seq::empty()
        } else {
            self.start_tokens(s, n - 1) + self.char_tokens(s[n - 1])
        }
    }

    /// The token that two adjacent tokens can be merged into.
    pub open spec fn merge_of(self, a: u32, b: u32) -> Option<u32> {
        self.id_of(self.text_of(a) + self.text_of(b))
    }

    /// The best merge among the first `n` adjacent pairs, as the pair's position and
    /// the merged token: the first one with the highest score.
    pub open spec fn best_merge(self, tokens: Seq<u32>, n: int) -> Option<(int, u32)>
        decreases n,
    {
        if n <= 0 {
            None
        } else {
            let before = self.best_merge(tokens, n - 1);
            let limit = match before {
                Some((_, id)) => self.score_of(id),
                None => NEG_INFINITY_BITS,
            };
            match self.merge_of(tokens[n - 1], tokens[n]) {
                Some(id) => if greater(self.score_of(id), limit) {
                    Some((n - 1, id))
                } else {
                    before
                },
                None => before,
            }
        }
    }

    /// The tokens after all merges, best first.
    pub open spec fn merged(self, tokens: Seq<u32>) -> Seq<u32>
        decreases tokens.len(),
    {
        match self.best_merge(tokens, tokens.len() - 1) {
            Some((i, id)) => if 0 <= i < tokens.len() - 1 {
                self.merged(tokens.update(i, id).remove(i + 1))
            } else {
                tokens
            },
            None => tokens,
        }
    }

    /// The tokens of a text.
    pub open spec fn encoded(self, s: Seq<char>) -> Seq<u32> {
        self.merged(self.start_tokens(s, s.len() as int))
    }

    /// The texts of the tokens, joined.
    pub open spec fn spelled(self, tokens: Seq<u32>) -> Seq<char>
        decreases tokens.len(),
    {
        if tokens.len() == 0 {
            Seq::empty()
        } else {
            self.spelled(tokens.drop_last()) + self.text_of(tokens.last())
        }
    }

    /// The text that tokens stand for: the mark for a space is one, and a leading space
    /// is dropped.
    pub open spec fn decoded(self, tokens: Seq<u32>) -> Seq<char> {
        let s = self.spelled(tokens).map_values(|c: char| plain_char(c));
        if s.len() > 0 && s[0] == ' ' {
            s.skip(1)
        } else {
            s
        }
    }

    proof fn lemma_best_merge(self, tokens: Seq<u32>, n: int)
        requires
            n <= tokens.len() - 1,
        ensures
            match self.best_merge(tokens, n) {
                Some((i, id)) => 0 <= i < n && self.merge_of(tokens[i], tokens[i + 1]) == Some(id),
                None => true,
            },
        decreases n,
    {
        if n > 0 {
            self.lemma_best_merge(tokens, n - 1);
        }
    }
}

/// The character that a token's character stands for.
pub open spec fn plain_char(c: char) -> char {
    if c == '\u{2581}' {
        ' '
    } else {
        c
    }
}

proof fn lemma_position(vocab: Seq<Seq<char>>, s: Seq<char>, i: int)
    requires
        0 <= i,
    ensures
        match position_from(vocab, s, i) {
            Some(p) => i <= p < vocab.len() && vocab[p] == s,
            None => forall|j: int| i <= j < vocab.len() ==> #[trigger] vocab[j] != s,
        },
    decreases vocab.len() - i,
{
    if i < vocab.len() && vocab[i] != s {
        lemma_position(vocab, s, i + 1);
    }
}

impl TokenizerView {
    /// Joined texts of two token lists.
    proof fn lemma_spelled_add(self, a: Seq<u32>, b: Seq<u32>)
        ensures
            self.spelled(a + b) == self.spelled(a) + self.spelled(b),
        decreases b.len(),
    {
        if b.len() == 0 {
            assert(a + b =~= a);
            assert(self.spelled(a) + self.spelled(b) =~= self.spelled(a));
        } else {
            self.lemma_spelled_add(a, b.drop_last());
            assert((a + b).drop_last() =~= a + b.drop_last());
            assert(self.spelled(a + b) =~= self.spelled(a) + self.spelled(b));
        }
    }

    proof fn lemma_spelled_one(self, id: u32)
        ensures
            self.spelled(seq![id]) == self.text_of(id),
    {
        assert(seq![id].drop_last() =~= Seq::empty());
        assert(self.spelled(Seq::<u32>::empty()) =~= Seq::empty());
        assert(self.spelled(seq![id]) =~= self.text_of(id));
    }

    /// One merge keeps the joined text.
    proof fn lemma_merge_keeps_text(self, tokens: Seq<u32>, i: int, id: u32)
        requires
            0 <= i < tokens.len() - 1,
            self.text_of(id) == self.text_of(tokens[i]) + self.text_of(tokens[i + 1]),
        ensures
            self.spelled(tokens.update(i, id).remove(i + 1)) == self.spelled(tokens),
    {
        let a = tokens.take(i);
        let c = tokens.skip(i + 2);
        let two = seq![tokens[i], tokens[i + 1]];
        let one = seq![id];
        assert(tokens =~= a + two + c);
        assert(tokens.update(i, id).remove(i + 1) =~= a + one + c);
        self.lemma_spelled_add(a + two, c);
        self.lemma_spelled_add(a, two);
        self.lemma_spelled_add(a + one, c);
        self.lemma_spelled_add(a, one);
        self.lemma_spelled_one(id);
        self.lemma_spelled_one(tokens[i]);
        assert(two.drop_last() =~= seq![tokens[i]]);
        assert(self.spelled(two) =~= self.spelled(one));
    }

    /// The text of a token that was looked up is what was looked up.
    proof fn lemma_id_text(self, s: Seq<char>)
        requires
            self.vocab.len() <= u32::MAX,
            self.id_of(s) is Some,
        ensures
            self.text_of(self.id_of(s)->0) == s,
    {
        lemma_position(self.vocab, s, 0);
    }

    /// Merging keeps the joined text: what the tokens of a text spell does not depend
    /// on how far they were merged. Ids must fit their type.
    pub proof fn law_merging_keeps_text(self, tokens: Seq<u32>)
        requires
            self.vocab.len() <= u32::MAX,
        ensures
            self.spelled(self.merged(tokens)) == self.spelled(tokens),
        decreases tokens.len(),
    {
        self.lemma_best_merge(tokens, tokens.len() - 1);
        match self.best_merge(tokens, tokens.len() - 1) {
            Some((i, id)) => {
                self.lemma_id_text(self.text_of(tokens[i]) + self.text_of(tokens[i + 1]));
                self.lemma_merge_keeps_text(tokens, i, id);
                self.law_merging_keeps_text(tokens.update(i, id).remove(i + 1));
            },
            None => {},
        }
    }

    /// A text whose characters all are tokens is spelled by its tokens.
    pub proof fn law_encoding_spells_text(self, s: Seq<char>)
        requires
            self.vocab.len() <= u32::MAX,
            forall|i: int| 0 <= i < s.len() ==> self.id_of(seq![#[trigger] s[i]]) is Some,
        ensures
            self.spelled(self.encoded(s)) == s,
    {
        self.lemma_start_spells(s, s.len() as int);
        assert(s.take(s.len() as int) =~= s);
        self.law_merging_keeps_text(self.start_tokens(s, s.len() as int));
    }

    proof fn lemma_start_spells(self, s: Seq<char>, n: int)
        requires
            0 <= n <= s.len(),
            self.vocab.len() <= u32::MAX,
            forall|i: int| 0 <= i < s.len() ==> self.id_of(seq![#[trigger] s[i]]) is Some,
        ensures
            self.spelled(self.start_tokens(s, n)) == s.take(n),
        decreases n,
    {
        if n == 0 {
            assert(s.take(0) =~= Seq::empty());
        } else {
            self.lemma_start_spells(s, n - 1);
            let c = s[n - 1];
            let id = self.id_of(seq![c])->0;
            self.lemma_id_text(seq![c]);
            self.lemma_spelled_add(self.start_tokens(s, n - 1), seq![id]);
            self.lemma_spelled_one(id);
            assert(s.take(n) =~= s.take(n - 1) + seq![c]);
        }
    }

    /// Decoding what was encoded gives the text back, where every character is a token
    /// and none is the mark for a space, but for a leading space.
    pub proof fn law_decode_undoes_encode(self, s: Seq<char>)
        requires
            self.vocab.len() <= u32::MAX,
            forall|i: int| 0 <= i < s.len() ==> self.id_of(seq![#[trigger] s[i]]) is Some && s[i] != '\u{2581}',
        ensures
            self.decoded(self.encoded(s)) == if s.len() > 0 && s[0] == ' ' {
                s.skip(1)
            } else {
                s
            },
    {
        self.law_encoding_spells_text(s);
        assert(s.map_values(|c: char| plain_char(c)) =~= s);
    }

    /// No pair is left that could be merged with a score above minus infinity.
    pub proof fn law_fully_merged(self, tokens: Seq<u32>)
        ensures
            self.best_merge(self.merged(tokens), self.merged(tokens).len() - 1) is None,
        decreases tokens.len(),
    {
        self.lemma_best_merge(tokens, tokens.len() - 1);
        match self.best_merge(tokens, tokens.len() - 1) {
            Some((i, id)) => {
                self.law_fully_merged(tokens.update(i, id).remove(i + 1));
            },
            None => {},
        }
    }
}

impl Tokenizer {
    /// Load the tokenizer from model metadata.
    pub fn from_gguf(gguf: &GgufFile<'_>) -> (r: Result<Self, &'static str>)
        ensures
            match r {
                Ok(t) => tokenizer_of(gguf@) == Ok::<TokenizerView, Seq<char>>(t@),
                Err(e) => tokenizer_of(gguf@) == Err::<TokenizerView, Seq<char>>(e@),
            },
    {
        broadcast use MetadataValue::lemma_array_model;

        let vocab = match gguf.metadata.get("tokenizer.ggml.tokens") {
            None => {
                return Err("GGUF: missing tokenizer.ggml.tokens");
            },
            Some(MetadataValue::Array(a)) => {
                let v = Self::texts(a);
                v
            },
            Some(_) => {
                return Err("GGUF: tokenizer.ggml.tokens is not an array");
            },
        };
        let scores = match gguf.metadata.get("tokenizer.ggml.scores") {
            Some(MetadataValue::Array(a)) => Self::given_scores(a),
            _ => Self::falling_scores(vocab.len()),
        };
        let bos_id = match gguf.meta_u32("tokenizer.ggml.bos_token_id") {
            Some(id) => id,
            None => 1,
        };
        let eos_id = match gguf.meta_u32("tokenizer.ggml.eos_token_id") {
            Some(id) => id,
            None => 2,
        };
        let t = Tokenizer { vocab, scores, bos_id, eos_id };
        assert(t@.scores =~= scores_of(map_get(gguf@.metadata, "tokenizer.ggml.scores"@), t@.vocab.len()));
        Ok(t)
    }

    fn texts(a: &Vec<MetadataValue>) -> (r: Vec<String>)
        ensures
            views(r@) == MetadataValue::items(a@).map_values(|v: MetaView| token_text(v)),
    {
        broadcast use group_views;

        let mut out: Vec<String> = Vec::new();
        let ghost want = MetadataValue::items(a@).map_values(|v: MetaView| token_text(v));
        let mut i: usize = 0;
        assert(want.take(0) =~= Seq::empty());
        while i < a.len()
            invariant
                i <= a@.len(),
                want == MetadataValue::items(a@).map_values(|v: MetaView| token_text(v)),
                views(out@) == want.take(i as int),
            decreases a@.len() - i,
        {
            broadcast use group_views;

            match &a[i] {
                MetadataValue::String(s) => out.push(s.clone()),
                _ => out.push(String::new()),
            }
            i += 1;
            assert(want.take(i as int) =~= want.take(i - 1).push(want[i - 1]));
        }
        assert(want.take(a@.len() as int) =~= want);
        out
    }

    fn given_scores(a: &Vec<MetadataValue>) -> (r: Vec<u32>)
        ensures
            r@ == MetadataValue::items(a@).map_values(|v: MetaView| token_score(v)),
    {
        let mut out: Vec<u32> = Vec::new();
        let ghost want = MetadataValue::items(a@).map_values(|v: MetaView| token_score(v));
        let mut i: usize = 0;
        while i < a.len()
            invariant
                i <= a@.len(),
                want == MetadataValue::items(a@).map_values(|v: MetaView| token_score(v)),
                out@ == want.take(i as int),
            decreases a@.len() - i,
        {
            match &a[i] {
                MetadataValue::F32(b) => out.push(*b),
                _ => out.push(0),
            }
            i += 1;
            assert(want.take(i as int) =~= want.take(i - 1).push(want[i - 1]));
        }
        assert(want.take(a@.len() as int) =~= want);
        out
    }

    fn falling_scores(n: usize) -> (r: Vec<u32>)
        ensures
            r@ == Seq::new(n as nat, |i: int| (0x8000_0000 + single_bits(i as nat)) as u32),
    {
        let mut out: Vec<u32> = Vec::new();
        let mut i: usize = 0;
        while i < n
            invariant
                i <= n,
                out@ == Seq::new(i as nat, |i: int| (0x8000_0000 + single_bits(i as nat)) as u32),
            decreases n - i,
        {
            out.push(minus_index_bits(i as u64));
            i += 1;
            assert(out@ =~= Seq::new(i as nat, |i: int| (0x8000_0000 + single_bits(i as nat)) as u32));
        }
        out
    }

    /// Encode a text into token ids.
    pub fn encode(&self, text: &str) -> (r: Vec<u32>)
        ensures
            r@ == self@.encoded(text@),
    {
        let cs = chars_of(text);
        let mut tokens: Vec<u32> = Vec::new();
        let mut i: usize = 0;
        while i < cs.len()
            invariant
                cs@ == text@,
                i <= cs@.len(),
                tokens@ == self@.start_tokens(text@, i as int),
            decreases cs@.len() - i,
        {
            let mut more = self.tokens_of_char(cs[i]);
            tokens.append(&mut more);
            i += 1;
        }
        let ghost start = tokens@;
        let mut more = true;
        while more
            invariant
                self@.merged(tokens@) == self@.merged(start),
                !more ==> self@.best_merge(tokens@, tokens@.len() - 1) is None,
            decreases tokens@.len() + (if more { 1int } else { 0int }),
        {
            let n = tokens.len();
            match self.find_best_merge(&tokens) {
                Some((k, id)) => {
                    proof {
                        assert(k + 1 < n);
                        self@.lemma_best_merge(tokens@, tokens@.len() - 1);
                    }
                    tokens[k] = id;
                    tokens.remove(k + 1);
                },
                None => {
                    more = false;
                },
            }
        }
        tokens
    }

    /// The tokens of one character.
    fn tokens_of_char(&self, c: char) -> (r: Vec<u32>)
        ensures
            r@ == self@.char_tokens(c),
    {
        let mut s = String::new();
        s.push(c);
        assert(s@ =~= seq![c]);
        let mut out: Vec<u32> = Vec::new();
        match self.find_token(s.as_str()) {
            Some(id) => {
                out.push(id);
                assert(out@ =~= seq![id]);
            },
            None => {
                let bytes = s.as_str().as_bytes();
                let mut i: usize = 0;
                while i < bytes.len()
                    invariant
                        i <= bytes@.len(),
                        bytes@ == encode_utf8(seq![c]),
                        out@ == self@.byte_tokens(bytes@, i as int),
                    decreases bytes@.len() - i,
                {
                    let name = Self::byte_name(bytes[i]);
                    match self.find_token(name.as_str()) {
                        Some(id) => out.push(id),
                        None => {},
                    }
                    i += 1;
                }
            },
        }
        out
    }

    /// The text of the token for a byte.
    fn byte_name(b: u8) -> (r: String)
        ensures
            r@ == byte_token(b),
    {
        let hi = b / 16;
        let lo = b % 16;
        let mut s = crate::text::text("<0x");
        s.push((if hi < 10 { 48 + hi } else { 55 + hi }) as char);
        s.push((if lo < 10 { 48 + lo } else { 55 + lo }) as char);
        s.push('>');
        s
    }

    /// The best merge of the tokens.
    fn find_best_merge(&self, tokens: &Vec<u32>) -> (r: Option<(usize, u32)>)
        ensures
            match r {
                Some((k, id)) => self@.best_merge(tokens@, tokens@.len() - 1) == Some((k as int, id)) && k + 1
                    < tokens@.len(),
                None => self@.best_merge(tokens@, tokens@.len() - 1) is None,
            },
    {
        let n = tokens.len();
        if n < 2 {
            return None;
        }
        let mut best: Option<(usize, u32)> = None;
        let mut limit: u32 = NEG_INFINITY_BITS;
        let mut i: usize = 0;
        while i < n - 1
            invariant
                n == tokens@.len(),
                n >= 2,
                i <= n - 1,
                match best {
                    Some((k, id)) => self@.best_merge(tokens@, i as int) == Some((k as int, id)) && limit
                        == self@.score_of(id) && k < i,
                    None => self@.best_merge(tokens@, i as int) is None && limit == NEG_INFINITY_BITS,
                },
            decreases n - i,
        {
            let joined = text_join(self.token_str(tokens[i]), self.token_str(tokens[i + 1]));
            match self.find_token(joined.as_str()) {
                Some(id) => {
                    let score = if (id as usize) < self.scores.len() {
                        self.scores[id as usize]
                    } else {
                        0
                    };
                    if is_greater(score, limit) {
                        limit = score;
                        best = Some((i, id));
                    }
                },
                None => {},
            }
            i += 1;
        }
        best
    }

    /// Decode token ids back into text.
    pub fn decode(&self, tokens: &[u32]) -> (r: String)
        ensures
            r@ == self@.decoded(tokens@),
    {
        let mut out: Vec<char> = Vec::new();
        let mut i: usize = 0;
        assert(tokens@.take(0) =~= Seq::empty());
        while i < tokens.len()
            invariant
                i <= tokens@.len(),
                out@ =~= self@.spelled(tokens@.take(i as int)).map_values(|c: char| plain_char(c)),
            decreases tokens@.len() - i,
        {
            let cs = chars_of(self.token_str(tokens[i]));
            let ghost before = out@;
            let mut k: usize = 0;
            while k < cs.len()
                invariant
                    k <= cs@.len(),
                    out@ =~= before + cs@.take(k as int).map_values(|c: char| plain_char(c)),
                decreases cs@.len() - k,
            {
                out.push(if cs[k] == '\u{2581}' { ' ' } else { cs[k] });
                k += 1;
            }
            assert(cs@.take(cs@.len() as int) =~= cs@);
            i += 1;
            assert(tokens@.take(i as int).drop_last() =~= tokens@.take(i - 1));
        }
        assert(tokens@.take(tokens@.len() as int) =~= tokens@);
        if out.len() > 0 && out[0] == ' ' {
            let r = crate::text::text_range(out.as_slice(), 1, out.len());
            assert(out@.subrange(1, out@.len() as int) =~= out@.skip(1));
            r
        } else {
            let r = crate::text::text_range(out.as_slice(), 0, out.len());
            assert(out@.subrange(0, out@.len() as int) =~= out@);
            r
        }
    }

    /// The text of a token id.
    pub fn token_str(&self, id: u32) -> (r: &str)
        ensures
            r@ == self@.text_of(id),
    {
        if (id as usize) < self.vocab.len() {
            self.vocab[id as usize].as_str()
        } else {
            let r = "";
            proof {
                reveal_strlit("");
            }
            assert(r@ =~= Seq::empty());
            r
        }
    }

    /// Find a text in the vocabulary, returning its id.
    fn find_token(&self, s: &str) -> (r: Option<u32>)
        ensures
            r == self@.id_of(s@),
    {
        let mut i: usize = 0;
        while i < self.vocab.len()
            invariant
                i <= self.vocab@.len(),
                self@.vocab == views(self.vocab@),
                position_from(self@.vocab, s@, 0) == position_from(self@.vocab, s@, i as int),
            decreases self.vocab@.len() - i,
        {
            if text_eq(self.vocab[i].as_str(), s) {
                return Some(#[verifier::truncate] (i as u32));
            }
            i += 1;
        }
        None
    }

    /// The token that begins a sequence.
    pub fn bos(&self) -> (r: u32)
        ensures
            r == self@.bos_id,
    {
        self.bos_id
    }

    /// The token that ends a sequence.
    pub fn eos(&self) -> (r: u32)
        ensures
            r == self@.eos_id,
    {
        self.eos_id
    }

    /// Vocabulary size.
    pub fn vocab_size(&self) -> (r: usize)
        ensures
            r == self@.vocab.len(),
    {
        self.vocab.len()
    }
}

} // verus!
