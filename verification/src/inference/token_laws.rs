//! What holds of encoding and decoding as a whole, stated over the vocabulary's texts and
//! scores alone.

use vstd::prelude::*;
use vstd::utf8::*;

use crate::inference::gguf::{GgufView, MetaView};
use crate::inference::score::{
    greater, is_nan, single_bits, top_bit, two_to, NEG_INFINITY_BITS,
};
use crate::inference::tokenizer::{position_from, tokenizer_of, TokenizerView};
use crate::text_map::map_get;

verus! {

/// The text of a token.
pub open spec fn word(t: TokenizerView, id: u32) -> Seq<char> {
    if id < t.vocab.len() {
        t.vocab[id as int]
    } else {
        Seq::empty()
    }
}

/// The score of a token: zero where the vocabulary gives none.
pub open spec fn rank(t: TokenizerView, id: u32) -> u32 {
    if id < t.scores.len() {
        t.scores[id as int]
    } else {
        0
    }
}

/// The token is the first one with the text.
pub open spec fn first_with(t: TokenizerView, s: Seq<char>, id: u32) -> bool {
    &&& id < t.vocab.len()
    &&& t.vocab[id as int] == s
    &&& forall|k: int| 0 <= k < id ==> #[trigger] t.vocab[k] != s
}

/// The tokens at `i` and behind it can be merged into `id`: their texts, joined, are its
/// text.
pub open spec fn mergeable(t: TokenizerView, tokens: Seq<u32>, i: int, id: u32) -> bool {
    0 <= i < tokens.len() - 1 && first_with(t, word(t, tokens[i]) + word(t, tokens[i + 1]), id)
}

/// The merge at `i` is the best one: no pair of the list can be merged into a token with a
/// greater score, and none before it into one with the same score.
pub open spec fn best_pair(t: TokenizerView, tokens: Seq<u32>, i: int, id: u32) -> bool {
    &&& mergeable(t, tokens, i, id)
    &&& forall|j: int, m: u32|
        #![trigger mergeable(t, tokens, j, m)]
        mergeable(t, tokens, j, m) ==> !greater(rank(t, m), rank(t, id)) && (j < i && !is_nan(rank(t, m)) ==> greater(
            rank(t, id),
            rank(t, m),
        ))
}

/// The second list is the first one after its best merge.
pub open spec fn best_step(t: TokenizerView, a: Seq<u32>, b: Seq<u32>) -> bool {
    exists|i: int, id: u32| #[trigger] best_pair(t, a, i, id) && b == a.take(i).push(id) + a.skip(i + 2)
}

/// No pair of the list can be merged into a token with a score above minus infinity.
pub open spec fn all_merged(t: TokenizerView, tokens: Seq<u32>) -> bool {
    forall|j: int, m: u32| #[trigger] mergeable(t, tokens, j, m) ==> !greater(rank(t, m), NEG_INFINITY_BITS)
}

proof fn lemma_first_position(vocab: Seq<Seq<char>>, s: Seq<char>, i: int)
    requires
        0 <= i,
    ensures
        match position_from(vocab, s, i) {
            Some(p) => i <= p < vocab.len() && vocab[p] == s && forall|k: int| i <= k < p ==> #[trigger] vocab[k] != s,
            None => forall|k: int| i <= k < vocab.len() ==> #[trigger] vocab[k] != s,
        },
    decreases vocab.len() - i,
{
    if i < vocab.len() && vocab[i] != s {
        lemma_first_position(vocab, s, i + 1);
    }
}

/// A text is looked up as the first token that has it, and as none where none has it.
pub proof fn law_lookup(t: TokenizerView, s: Seq<char>, id: u32)
    requires
        t.vocab.len() <= u32::MAX,
    ensures
        t.id_of(s) == Some(id) <==> first_with(t, s, id),
        t.id_of(s) is None <==> !t.vocab.contains(s),
{
    lemma_first_position(t.vocab, s, 0);
    match position_from(t.vocab, s, 0) {
        Some(p) => {
            assert(t.vocab.contains(s));
            if first_with(t, s, id) {
                if p < id {
                    assert(t.vocab[p] != s);
                }
                if id < p {
                    assert(t.vocab[id as int] != s);
                }
            }
        },
        None => {},
    }
}

proof fn lemma_best(t: TokenizerView, tokens: Seq<u32>, n: int)
    requires
        t.vocab.len() <= u32::MAX,
        n <= tokens.len() - 1,
    ensures
        match t.best_merge(tokens, n) {
            Some((i, id)) => {
                &&& i < n
                &&& mergeable(t, tokens, i, id)
                &&& greater(rank(t, id), NEG_INFINITY_BITS)
                &&& forall|j: int, m: u32|
                    #![trigger mergeable(t, tokens, j, m)]
                    mergeable(t, tokens, j, m) && j < n ==> !greater(rank(t, m), rank(t, id)) && (j < i && !is_nan(
                        rank(t, m),
                    ) ==> greater(rank(t, id), rank(t, m)))
            },
            None => forall|j: int, m: u32|
                #![trigger mergeable(t, tokens, j, m)]
                mergeable(t, tokens, j, m) && j < n ==> !greater(rank(t, m), NEG_INFINITY_BITS),
        },
    decreases n,
{
    if n > 0 {
        lemma_best(t, tokens, n - 1);
        let joined = word(t, tokens[n - 1]) + word(t, tokens[n]);
        assert forall|m: u32| mergeable(t, tokens, n - 1, m) <==> t.merge_of(tokens[n - 1], tokens[n]) == Some(m) by {
            law_lookup(t, joined, m);
        }
        assert forall|j: int, m: u32| #[trigger] mergeable(t, tokens, j, m) && j < n implies j < n - 1 || (j == n - 1
            && t.merge_of(tokens[n - 1], tokens[n]) == Some(m)) by {}
        match t.merge_of(tokens[n - 1], tokens[n]) {
            Some(id) => {
                assert(mergeable(t, tokens, n - 1, id));
            },
            None => {},
        }
    }
}

/// Merging takes the best pair first, again and again: there is a row of token lists that
/// begins with the given one and ends with the merged one, each the one before it after
/// its best merge, and in the last one nothing is left to merge.
pub proof fn law_best_pair_is_merged_first(t: TokenizerView, tokens: Seq<u32>) -> (steps: Seq<Seq<u32>>)
    requires
        t.vocab.len() <= u32::MAX,
    ensures
        steps.len() > 0,
        steps[0] == tokens,
        steps.last() == t.merged(tokens),
        forall|k: int| 0 <= k < steps.len() - 1 ==> best_step(t, #[trigger] steps[k], steps[k + 1]),
        all_merged(t, t.merged(tokens)),
    decreases tokens.len(),
{
    lemma_best(t, tokens, tokens.len() - 1);
    match t.best_merge(tokens, tokens.len() - 1) {
        Some((i, id)) => {
            let next = tokens.update(i, id).remove(i + 1);
            assert(next =~= tokens.take(i).push(id) + tokens.skip(i + 2));
            assert(best_pair(t, tokens, i, id));
            let rest = law_best_pair_is_merged_first(t, next);
            let steps = seq![tokens] + rest;
            assert forall|k: int| 0 <= k < steps.len() - 1 implies best_step(t, #[trigger] steps[k], steps[k + 1]) by {
                if k > 0 {
                    assert(steps[k] == rest[k - 1] && steps[k + 1] == rest[k]);
                    assert(best_step(t, rest[k - 1], rest[k - 1 + 1]));
                }
            }
            steps
        },
        None => seq![tokens],
    }
}

/// Encoding a text merges the tokens of its characters, the best pair first, as far as
/// it goes.
pub proof fn law_encoding_merges_best_first(t: TokenizerView, s: Seq<char>) -> (steps: Seq<Seq<u32>>)
    requires
        t.vocab.len() <= u32::MAX,
    ensures
        steps.len() > 0,
        steps[0] == t.start_tokens(s, s.len() as int),
        steps.last() == t.encoded(s),
        forall|k: int| 0 <= k < steps.len() - 1 ==> best_step(t, #[trigger] steps[k], steps[k + 1]),
        all_merged(t, t.encoded(s)),
{
    law_best_pair_is_merged_first(t, t.start_tokens(s, s.len() as int))
}

/// Of a text of two characters that are tokens, the tokens are the one of both, where
/// there is one, else theirs.
pub proof fn law_two_characters(t: TokenizerView, a: char, b: char, x: u32, y: u32, both: u32)
    requires
        t.vocab.len() <= u32::MAX,
        first_with(t, seq![a], x),
        first_with(t, seq![b], y),
    ensures
        first_with(t, seq![a, b], both) && greater(rank(t, both), NEG_INFINITY_BITS) ==> t.encoded(seq![a, b]) == seq![
            both,
        ],
        !t.vocab.contains(seq![a, b]) ==> t.encoded(seq![a, b]) == seq![x, y],
{
    let s = seq![a, b];
    law_characters_have_tokens(t, a, x);
    law_characters_have_tokens(t, b, y);
    law_start_of_characters(t, seq![a], seq![b]);
    assert(seq![a] + seq![b] =~= s);
    let start = t.start_tokens(s, 2);
    assert(start =~= seq![x, y]);
    assert(word(t, x) + word(t, y) =~= s);
    let steps = law_encoding_merges_best_first(t, s);
    if steps.len() > 1 {
        assert(best_step(t, steps[0], steps[0int + 1]));
        let (i, id) = choose|i: int, id: u32| #[trigger]
            best_pair(t, start, i, id) && steps[1] == start.take(i).push(id) + start.skip(i + 2);
        assert(mergeable(t, start, i, id));
        assert(i == 0);
        assert(steps[1] =~= seq![id]);
        if steps.len() > 2 {
            assert(best_step(t, steps[1], steps[1int + 1]));
        }
        if first_with(t, s, both) {
            law_lookup(t, s, both);
            law_lookup(t, s, id);
        }
    } else if first_with(t, s, both) {
        assert(mergeable(t, start, 0, both));
    }
}

// ---------------------------------------------------------------------------
// Characters
// ---------------------------------------------------------------------------

/// The tokens of a text, before any merge, are those of its parts.
pub proof fn law_start_of_characters(t: TokenizerView, a: Seq<char>, b: Seq<char>)
    ensures
        t.start_tokens(a + b, (a + b).len() as int) == t.start_tokens(a, a.len() as int) + t.start_tokens(
            b,
            b.len() as int,
        ),
        b.len() == 1 ==> t.start_tokens(b, 1) == t.char_tokens(b[0]),
    decreases b.len(),
{
    let s = a + b;
    if b.len() == 0 {
        assert(s =~= a);
        assert(t.start_tokens(a, a.len() as int) + t.start_tokens(b, 0) =~= t.start_tokens(a, a.len() as int));
    } else {
        let c = b.drop_last();
        law_start_of_characters(t, a, c);
        lemma_start_prefix(t, s, a + c, (a + c).len() as int);
        lemma_start_prefix(t, b, c, c.len() as int);
        assert(s.last() == b.last());
        assert(t.start_tokens(s, s.len() as int) =~= t.start_tokens(a, a.len() as int) + t.start_tokens(
            b,
            b.len() as int,
        ));
        if b.len() == 1 {
            assert(t.start_tokens(b, 0) =~= Seq::empty());
            assert(t.start_tokens(b, 1) =~= t.char_tokens(b[0]));
        }
    }
}

proof fn lemma_start_prefix(t: TokenizerView, a: Seq<char>, b: Seq<char>, n: int)
    requires
        n <= a.len(),
        n <= b.len(),
        forall|i: int| 0 <= i < n ==> a[i] == b[i],
    ensures
        t.start_tokens(a, n) == t.start_tokens(b, n),
    decreases n,
{
    if n > 0 {
        lemma_start_prefix(t, a, b, n - 1);
    }
}

/// A character that is a token is that token.
pub proof fn law_characters_have_tokens(t: TokenizerView, c: char, id: u32)
    requires
        t.vocab.len() <= u32::MAX,
        first_with(t, seq![c], id),
    ensures
        t.char_tokens(c) == seq![id],
        t.start_tokens(seq![c], 1) == seq![id],
{
    law_lookup(t, seq![c], id);
    law_start_of_characters(t, Seq::empty(), seq![c]);
}

/// The value of a hexadecimal digit in capitals.
pub open spec fn capital_value(c: char) -> int {
    if '0' <= c <= '9' {
        c as int - '0' as int
    } else if 'A' <= c <= 'F' {
        c as int - 'A' as int + 10
    } else {
        -1
    }
}

/// The text is the name of a byte: two hexadecimal digits between "<0x" and ">".
pub open spec fn names_byte(s: Seq<char>, b: u8) -> bool {
    &&& s.len() == 6
    &&& s[0] == '<'
    &&& s[1] == '0'
    &&& s[2] == 'x'
    &&& s[5] == '>'
    &&& capital_value(s[3]) >= 0
    &&& capital_value(s[4]) >= 0
    &&& capital_value(s[3]) * 16 + capital_value(s[4]) == b
}

proof fn lemma_byte_name(b: u8)
    ensures
        names_byte(crate::inference::tokenizer::byte_token(b), b),
{
    reveal_strlit("<0x");
}

/// A character that is no token is spelled by the tokens of its bytes in UTF-8, one for
/// each, where the vocabulary names them all.
pub proof fn law_bytes_spell_character(t: TokenizerView, c: char)
    requires
        t.vocab.len() <= u32::MAX,
        !t.vocab.contains(seq![c]),
        forall|b: u8, s: Seq<char>| #[trigger] names_byte(s, b) ==> t.vocab.contains(s),
    ensures
        ({
            let bytes = encode_utf8(seq![c]);
            let tokens = t.char_tokens(c);
            &&& tokens.len() == bytes.len()
            &&& forall|k: int| 0 <= k < bytes.len() ==> names_byte(word(t, #[trigger] tokens[k]), bytes[k])
        }),
{
    law_lookup(t, seq![c], 0);
    let bytes = encode_utf8(seq![c]);
    lemma_bytes_spell(t, bytes, bytes.len() as int);
}

proof fn lemma_bytes_spell(t: TokenizerView, bytes: Seq<u8>, n: int)
    requires
        t.vocab.len() <= u32::MAX,
        forall|b: u8, s: Seq<char>| #[trigger] names_byte(s, b) ==> t.vocab.contains(s),
        0 <= n <= bytes.len(),
    ensures
        t.byte_tokens(bytes, n).len() == n,
        forall|k: int| 0 <= k < n ==> names_byte(word(t, #[trigger] t.byte_tokens(bytes, n)[k]), bytes[k]),
    decreases n,
{
    if n > 0 {
        let b = bytes[n - 1];
        let s = crate::inference::tokenizer::byte_token(b);
        lemma_bytes_spell(t, bytes, n - 1);
        lemma_byte_name(b);
        law_lookup(t, s, 0);
        let id = t.id_of(s)->0;
        law_lookup(t, s, id);
        let before = t.byte_tokens(bytes, n - 1);
        assert forall|k: int| 0 <= k < n implies names_byte(word(t, #[trigger] t.byte_tokens(bytes, n)[k]), bytes[k]) by {
            if k < n - 1 {
                assert(t.byte_tokens(bytes, n)[k] == before[k]);
            }
        }
    }
}

// ---------------------------------------------------------------------------
// Decoding
// ---------------------------------------------------------------------------

/// What tokens spell is the texts of the tokens, one behind the other.
pub proof fn law_spelling(t: TokenizerView, a: Seq<u32>, b: Seq<u32>, id: u32)
    ensures
        t.spelled(a + b) == t.spelled(a) + t.spelled(b),
        t.spelled(seq![id]) == word(t, id),
        t.spelled(Seq::empty()) == Seq::<char>::empty(),
    decreases b.len(),
{
    assert(seq![id].drop_last() =~= Seq::empty());
    assert(t.spelled(seq![id].drop_last()) =~= Seq::empty());
    assert(t.spelled(seq![id]) =~= word(t, id));
    if b.len() == 0 {
        assert(a + b =~= a);
        assert(t.spelled(a) + t.spelled(b) =~= t.spelled(a));
    } else {
        law_spelling(t, a, b.drop_last(), id);
        assert((a + b).drop_last() =~= a + b.drop_last());
        assert(t.spelled(a + b) =~= t.spelled(a) + t.spelled(b));
    }
}

/// Decoding gives what the tokens spell, with a space for each mark of one, and without a
/// space at the front.
pub proof fn law_decoding(t: TokenizerView, tokens: Seq<u32>)
    ensures
        ({
            let s = t.spelled(tokens);
            let d = t.decoded(tokens);
            let cut: int = if s.len() > 0 && (s[0] == ' ' || s[0] == '\u{2581}') {
                1
            } else {
                0
            };
            &&& d.len() == s.len() - cut
            &&& forall|i: int|
                0 <= i < d.len() ==> #[trigger] d[i] == if s[i + cut] == '\u{2581}' {
                    ' '
                } else {
                    s[i + cut]
                }
        }),
{
}

// ---------------------------------------------------------------------------
// Vocabularies
// ---------------------------------------------------------------------------

/// The vocabulary of a model file is its list of tokens, in order, with their scores; the
/// tokens that begin and end a sequence are those that it names, else 1 and 2.
pub proof fn law_vocabulary_is_read(g: GgufView, tokens: Seq<Seq<char>>, scores: Seq<u32>)
    requires
        map_get(g.metadata, "tokenizer.ggml.tokens"@) == Some(
            MetaView::Array(tokens.map_values(|s: Seq<char>| MetaView::String(s))),
        ),
        map_get(g.metadata, "tokenizer.ggml.scores"@) == Some(
            MetaView::Array(scores.map_values(|b: u32| MetaView::F32(b))),
        ),
    ensures
        tokenizer_of(g) is Ok,
        tokenizer_of(g)->Ok_0.vocab == tokens,
        tokenizer_of(g)->Ok_0.scores == scores,
        map_get(g.metadata, "tokenizer.ggml.bos_token_id"@) matches Some(MetaView::U32(v)) ==> tokenizer_of(g)->Ok_0.bos_id
            == v,
        map_get(g.metadata, "tokenizer.ggml.eos_token_id"@) matches Some(MetaView::U32(v)) ==> tokenizer_of(g)->Ok_0.eos_id
            == v,
        map_get(g.metadata, "tokenizer.ggml.bos_token_id"@) is None ==> tokenizer_of(g)->Ok_0.bos_id == 1,
        map_get(g.metadata, "tokenizer.ggml.eos_token_id"@) is None ==> tokenizer_of(g)->Ok_0.eos_id == 2,
{
    let t = tokenizer_of(g)->Ok_0;
    assert(t.vocab =~= tokens);
    assert(t.scores =~= scores);
}

/// Where a model file gives no scores, a token's score is above those of all behind it,
/// as long as these numbers are exact.
pub proof fn law_default_scores_fall(g: GgufView, i: u32, j: u32)
    requires
        tokenizer_of(g) is Ok,
        map_get(g.metadata, "tokenizer.ggml.scores"@) is None,
        i < j < 0x100_0000,
        j < tokenizer_of(g)->Ok_0.vocab.len(),
    ensures
        greater(rank(tokenizer_of(g)->Ok_0, i), rank(tokenizer_of(g)->Ok_0, j)),
{
    lemma_single_grows(i as nat, j as nat);
}

proof fn lemma_power_positive(n: nat)
    ensures
        two_to(n) >= 1,
    decreases n,
{
    if n > 0 {
        lemma_power_positive((n - 1) as nat);
    }
}

proof fn lemma_power_sum(a: nat, b: nat)
    ensures
        two_to(a + b) == two_to(a) * two_to(b),
    decreases b,
{
    if b > 0 {
        lemma_power_sum(a, (b - 1) as nat);
        let x = two_to(a) as int;
        let y = two_to((b - 1) as nat) as int;
        assert(x * (2 * y) == 2 * (x * y)) by (nonlinear_arith);
        assert((a + b - 1) as nat == a + (b - 1) as nat);
    } else {
        assert(two_to(a) * 1 == two_to(a));
    }
}

proof fn lemma_top(i: nat)
    requires
        i >= 1,
    ensures
        two_to(top_bit(i)) <= i < 2 * two_to(top_bit(i)),
    decreases i,
{
    if i >= 2 {
        lemma_top(i / 2);
    }
}

proof fn lemma_power_grows(a: nat, b: nat)
    requires
        a <= b,
    ensures
        two_to(a) <= two_to(b),
    decreases b - a,
{
    if a < b {
        lemma_power_grows(a, (b - 1) as nat);
        lemma_power_positive((b - 1) as nat);
    }
}

/// The exponent of an exact number, and the range of its bits.
proof fn lemma_single_range(i: nat)
    requires
        1 <= i < 0x100_0000,
    ensures
        top_bit(i) <= 23,
        (127 + top_bit(i)) * 0x80_0000 <= single_bits(i) < (128 + top_bit(i)) * 0x80_0000,
{
    let e = top_bit(i);
    lemma_top(i);
    assert(two_to(23) == 0x80_0000) by {
        reveal_with_fuel(two_to, 24);
    }
    assert(two_to(24) == 0x100_0000) by {
        reveal_with_fuel(two_to, 25);
    }
    if e > 23 {
        lemma_power_grows(24, e);
    }
    let f = (23 - e) as nat;
    lemma_power_sum(e, f);
    lemma_power_positive(f);
    let p = two_to(e) as int;
    let q = two_to(f) as int;
    assert(p * q <= i * q < 2 * (p * q)) by (nonlinear_arith)
        requires
            p <= i < 2 * p,
            q >= 1,
    ;
}

proof fn lemma_single_grows(i: nat, j: nat)
    requires
        i < j < 0x100_0000,
    ensures
        single_bits(i) < single_bits(j) < 0x7f80_0000,
{
    lemma_single_range(j);
    if i > 0 {
        lemma_single_range(i);
        let e = top_bit(i);
        let d = top_bit(j);
        lemma_top(i);
        lemma_top(j);
        if e > d {
            lemma_power_grows(d + 1, e);
        } else if e == d {
            let q = two_to((23 - e) as nat) as int;
            lemma_power_positive((23 - e) as nat);
            assert(i * q < j * q) by (nonlinear_arith)
                requires
                    i < j,
                    q >= 1,
            ;
        }
    }
}

// ---------------------------------------------------------------------------
// Scores
// ---------------------------------------------------------------------------

/// Scores are ordered as numbers are: nothing exceeds itself, the order goes on from one
/// to the next, of two different numbers one is greater, and turning the signs turns it.
pub proof fn law_score_order(a: u32, b: u32, c: u32)
    ensures
        !greater(a, a),
        greater(a, b) && greater(b, c) ==> greater(a, c),
        greater(a, b) ==> !greater(b, a) && !is_nan(a) && !is_nan(b),
        a <= 0x7f80_0000 && b <= 0x7f80_0000 ==> (greater(a, b) <==> a > b),
        a <= 0x7f80_0000 && b <= 0x7f80_0000 ==> (greater((a + 0x8000_0000) as u32, (b + 0x8000_0000) as u32) <==> a < b),
        0 < a <= 0x7f80_0000 && b <= 0x7f80_0000 ==> greater(a, (b + 0x8000_0000) as u32),
        !greater(0, 0x8000_0000) && !greater(0x8000_0000, 0),
        0x7f80_0000 < a < 0x8000_0000 || a > 0xff80_0000 ==> is_nan(a),
        a <= 0x7f80_0000 ==> !is_nan(a) && !is_nan((a + 0x8000_0000) as u32),
{
}

} // verus!
