//! What holds of a loaded model, and of the loop that runs it, as a whole.

use vstd::prelude::*;

use crate::inference::gguf::{FloatBits, GgufView, MetaView};
use crate::inference::tensor::Weight;
use crate::inference::transformer::{
    config_of, layer_suffix, load_from, missing_entry, model_of, needed_tensor, tensor_weights, GenAction, GenView,
    StopCause,
};
use crate::text::decimal;
use crate::text_laws::{law_decimal_differs, law_decimal_digits};
use crate::text_map::map_get;

verus! {

// ---------------------------------------------------------------------------
// Weights
// ---------------------------------------------------------------------------

/// What loading collects: the tensors that were there, then each needed one in its place.
proof fn lemma_load(d: Seq<u8>, g: GgufView, n: int, k: int, acc: Seq<Seq<Weight>>, i: int)
    requires
        0 <= n,
        0 <= k <= 2 + 9 * n,
        acc.len() == k,
        load_from(d, g, n, k, acc) is Ok,
        0 <= i < 2 + 9 * n,
    ensures
        ({
            let ts = load_from(d, g, n, k, acc)->Ok_0;
            &&& ts.len() == 2 + 9 * n
            &&& i < k ==> ts[i] == acc[i]
            &&& i >= k ==> tensor_weights(d, g, needed_tensor(n, i)) == Ok::<Seq<Weight>, Seq<char>>(ts[i])
        }),
    decreases 2 + 9 * n - k,
{
    if k < 2 + 9 * n {
        let w = tensor_weights(d, g, needed_tensor(n, k))->Ok_0;
        lemma_load(d, g, n, k + 1, acc.push(w), i);
    }
}

proof fn lemma_load_succeeds(d: Seq<u8>, g: GgufView, n: int, k: int, acc: Seq<Seq<Weight>>)
    requires
        0 <= n,
        0 <= k <= 2 + 9 * n,
        forall|i: int| k <= i < 2 + 9 * n ==> tensor_weights(d, g, #[trigger] needed_tensor(n, i)) is Ok,
    ensures
        load_from(d, g, n, k, acc) is Ok,
    decreases 2 + 9 * n - k,
{
    if k < 2 + 9 * n {
        assert(tensor_weights(d, g, needed_tensor(n, k)) is Ok);
        lemma_load_succeeds(d, g, n, k + 1, acc.push(tensor_weights(d, g, needed_tensor(n, k))->Ok_0));
    }
}

/// The weights of every layer are those that the file holds under the layer's own number:
/// the two norms, the projections of the attention and those of the feed-forward network.
pub proof fn law_layers_have_their_own_weights(d: Seq<u8>, g: GgufView, l: nat)
    requires
        model_of(d, g) is Ok,
        l < model_of(d, g)->Ok_0.0.n_layers,
    ensures
        ({
            let ts = model_of(d, g)->Ok_0.1;
            let layer = "blk."@ + decimal(l);
            let first = (1 + 9 * l) as int;
            &&& first + 9 < ts.len()
            &&& tensor_weights(d, g, layer + ".attn_norm.weight"@) == Ok::<Seq<Weight>, Seq<char>>(ts[first])
            &&& tensor_weights(d, g, layer + ".attn_q.weight"@) == Ok::<Seq<Weight>, Seq<char>>(ts[first + 1])
            &&& tensor_weights(d, g, layer + ".attn_k.weight"@) == Ok::<Seq<Weight>, Seq<char>>(ts[first + 2])
            &&& tensor_weights(d, g, layer + ".attn_v.weight"@) == Ok::<Seq<Weight>, Seq<char>>(ts[first + 3])
            &&& tensor_weights(d, g, layer + ".attn_output.weight"@) == Ok::<Seq<Weight>, Seq<char>>(ts[first + 4])
            &&& tensor_weights(d, g, layer + ".ffn_norm.weight"@) == Ok::<Seq<Weight>, Seq<char>>(ts[first + 5])
            &&& tensor_weights(d, g, layer + ".ffn_gate.weight"@) == Ok::<Seq<Weight>, Seq<char>>(ts[first + 6])
            &&& tensor_weights(d, g, layer + ".ffn_down.weight"@) == Ok::<Seq<Weight>, Seq<char>>(ts[first + 7])
            &&& tensor_weights(d, g, layer + ".ffn_up.weight"@) == Ok::<Seq<Weight>, Seq<char>>(ts[first + 8])
        }),
{
    let n = config_of(g.metadata).n_layers as int;
    lemma_layer_tensor(d, g, n, l as int, 0);
    lemma_layer_tensor(d, g, n, l as int, 1);
    lemma_layer_tensor(d, g, n, l as int, 2);
    lemma_layer_tensor(d, g, n, l as int, 3);
    lemma_layer_tensor(d, g, n, l as int, 4);
    lemma_layer_tensor(d, g, n, l as int, 5);
    lemma_layer_tensor(d, g, n, l as int, 6);
    lemma_layer_tensor(d, g, n, l as int, 7);
    lemma_layer_tensor(d, g, n, l as int, 8);
}

proof fn lemma_layer_tensor(d: Seq<u8>, g: GgufView, n: int, l: int, j: int)
    requires
        load_from(d, g, n, 0, Seq::empty()) is Ok,
        0 <= l < n,
        0 <= j < 9,
    ensures
        ({
            let ts = load_from(d, g, n, 0, Seq::empty())->Ok_0;
            &&& ts.len() == 2 + 9 * n
            &&& tensor_weights(d, g, "blk."@ + decimal(l as nat) + layer_suffix(j)) == Ok::<Seq<Weight>, Seq<char>>(
                ts[1 + 9 * l + j],
            )
        }),
{
    let k = 1 + 9 * l + j;
    lemma_load(d, g, n, 0, Seq::empty(), k);
    assert((k - 1) / 9 == l && (k - 1) % 9 == j) by (nonlinear_arith)
        requires
            k - 1 == 9 * l + j,
            0 <= j < 9,
    ;
    assert(k < 1 + 9 * n);
}

/// The weights outside the layers are the embedding, the final norm and, where the file
/// has one, the output projection; a model has no others.
pub proof fn law_model_has_its_weights(d: Seq<u8>, g: GgufView)
    requires
        model_of(d, g) is Ok,
    ensures
        ({
            let (c, ts, output) = model_of(d, g)->Ok_0;
            &&& ts.len() == 2 + 9 * c.n_layers
            &&& tensor_weights(d, g, "token_embd.weight"@) == Ok::<Seq<Weight>, Seq<char>>(ts[0])
            &&& tensor_weights(d, g, "output_norm.weight"@) == Ok::<Seq<Weight>, Seq<char>>(ts.last())
            &&& output is Some <==> tensor_weights(d, g, "output.weight"@) is Ok
            &&& output is Some ==> tensor_weights(d, g, "output.weight"@) == Ok::<Seq<Weight>, Seq<char>>(output->0)
        }),
{
    let n = config_of(g.metadata).n_layers as int;
    lemma_load(d, g, n, 0, Seq::empty(), 0);
    lemma_load(d, g, n, 0, Seq::empty(), 1 + 9 * n);
}

/// A file whose metadata are complete and that holds every needed tensor is a model.
pub proof fn law_complete_file_is_a_model(d: Seq<u8>, g: GgufView)
    requires
        missing_entry(g.metadata) is None,
        tensor_weights(d, g, "token_embd.weight"@) is Ok,
        tensor_weights(d, g, "output_norm.weight"@) is Ok,
        forall|l: nat|
            #![trigger decimal(l)]
            l < config_of(g.metadata).n_layers ==> {
                let layer = "blk."@ + decimal(l);
                &&& tensor_weights(d, g, layer + ".attn_norm.weight"@) is Ok
                &&& tensor_weights(d, g, layer + ".attn_q.weight"@) is Ok
                &&& tensor_weights(d, g, layer + ".attn_k.weight"@) is Ok
                &&& tensor_weights(d, g, layer + ".attn_v.weight"@) is Ok
                &&& tensor_weights(d, g, layer + ".attn_output.weight"@) is Ok
                &&& tensor_weights(d, g, layer + ".ffn_norm.weight"@) is Ok
                &&& tensor_weights(d, g, layer + ".ffn_gate.weight"@) is Ok
                &&& tensor_weights(d, g, layer + ".ffn_down.weight"@) is Ok
                &&& tensor_weights(d, g, layer + ".ffn_up.weight"@) is Ok
            },
    ensures
        model_of(d, g) is Ok,
{
    let n = config_of(g.metadata).n_layers as int;
    assert forall|i: int| 0 <= i < 2 + 9 * n implies tensor_weights(d, g, #[trigger] needed_tensor(n, i)) is Ok by {
        if 0 < i < 1 + 9 * n {
            let l = ((i - 1) / 9) as nat;
            assert(l < n);
            assert(decimal(l) == decimal(((i - 1) / 9) as nat));
        }
    }
    lemma_load_succeeds(d, g, n, 0, Seq::empty());
}

/// Two texts that go on with a dot behind a row of digits are the same only if the digits
/// and what follows are.
proof fn lemma_digits_then_dot(a: Seq<char>, x: Seq<char>, b: Seq<char>, y: Seq<char>)
    requires
        a + x == b + y,
        x.len() > 0,
        y.len() > 0,
        x[0] == '.',
        y[0] == '.',
        forall|i: int| 0 <= i < a.len() ==> '0' <= #[trigger] a[i] <= '9',
        forall|i: int| 0 <= i < b.len() ==> '0' <= #[trigger] b[i] <= '9',
    ensures
        a == b,
        x == y,
{
    let s = a + x;
    let t = b + y;
    assert(s[a.len() as int] == '.');
    assert(t[b.len() as int] == '.');
    if a.len() < b.len() {
        assert(t[a.len() as int] == b[a.len() as int]);
    }
    if b.len() < a.len() {
        assert(s[b.len() as int] == a[b.len() as int]);
    }
    assert(a =~= s.take(a.len() as int));
    assert(b =~= t.take(a.len() as int));
    assert(x =~= s.skip(a.len() as int));
    assert(y =~= t.skip(a.len() as int));
}

#[verifier::rlimit(40)]
proof fn lemma_suffixes(i: int, j: int)
    requires
        0 <= i < 9,
        0 <= j < 9,
        layer_suffix(i) == layer_suffix(j),
    ensures
        i == j,
{
    reveal_strlit(".attn_norm.weight");
    reveal_strlit(".attn_q.weight");
    reveal_strlit(".attn_k.weight");
    reveal_strlit(".attn_v.weight");
    reveal_strlit(".attn_output.weight");
    reveal_strlit(".ffn_norm.weight");
    reveal_strlit(".ffn_gate.weight");
    reveal_strlit(".ffn_down.weight");
    reveal_strlit(".ffn_up.weight");
    let a = layer_suffix(i);
    let b = layer_suffix(j);
    assert(a.len() == b.len());
    assert(a[1] == b[1] && a[5] == b[5] && a[6] == b[6]);
}

/// No two of the tensors that a model needs have the same name, so none is loaded in
/// another one's place.
pub proof fn law_needed_names_differ(n: int, i: int, k: int)
    requires
        0 <= i < k < 2 + 9 * n,
    ensures
        needed_tensor(n, i) != needed_tensor(n, k),
{
    reveal_strlit("token_embd.weight");
    reveal_strlit("output_norm.weight");
    reveal_strlit("blk.");
    let a = needed_tensor(n, i);
    let b = needed_tensor(n, k);
    if a == b {
        assert(a[0] == b[0]);
        assert(k < 1 + 9 * n && i > 0);
        let li = ((i - 1) / 9) as nat;
        let lk = ((k - 1) / 9) as nat;
        let si = layer_suffix((i - 1) % 9);
        let sk = layer_suffix((k - 1) % 9);
        assert(a =~= "blk."@ + (decimal(li) + si));
        assert(b =~= "blk."@ + (decimal(lk) + sk));
        assert(decimal(li) + si =~= a.skip(4));
        assert(decimal(lk) + sk =~= b.skip(4));
        law_decimal_digits(li);
        law_decimal_digits(lk);
        lemma_suffix_dot((i - 1) % 9);
        lemma_suffix_dot((k - 1) % 9);
        lemma_digits_then_dot(decimal(li), si, decimal(lk), sk);
        law_decimal_differs(li, lk);
        lemma_suffixes((i - 1) % 9, (k - 1) % 9);
    }
}

#[verifier::rlimit(40)]
proof fn lemma_suffix_dot(j: int)
    requires
        0 <= j < 9,
    ensures
        layer_suffix(j).len() > 0,
        layer_suffix(j)[0] == '.',
{
    reveal_strlit(".attn_norm.weight");
    reveal_strlit(".attn_q.weight");
    reveal_strlit(".attn_k.weight");
    reveal_strlit(".attn_v.weight");
    reveal_strlit(".attn_output.weight");
    reveal_strlit(".ffn_norm.weight");
    reveal_strlit(".ffn_gate.weight");
    reveal_strlit(".ffn_down.weight");
    reveal_strlit(".ffn_up.weight");
}

// ---------------------------------------------------------------------------
// Configuration
// ---------------------------------------------------------------------------

/// A configuration has the sizes that the metadata name: as many key/value heads as heads,
/// a context of 2048, where nothing else is said.
pub proof fn law_configuration_is_read(
    m: Seq<(Seq<char>, MetaView)>,
    vocab: u32,
    hidden: u32,
    inner: u32,
    layers: u32,
    heads: u32,
)
    requires
        map_get(m, "llama.vocab_size"@) == Some(MetaView::U32(vocab)) || (map_get(m, "llama.vocab_size"@) is None
            && map_get(m, "general.vocab_size"@) == Some(MetaView::U32(vocab))),
        map_get(m, "llama.embedding_length"@) == Some(MetaView::U32(hidden)),
        map_get(m, "llama.feed_forward_length"@) == Some(MetaView::U32(inner)),
        map_get(m, "llama.block_count"@) == Some(MetaView::U32(layers)),
        map_get(m, "llama.attention.head_count"@) == Some(MetaView::U32(heads)),
        heads > 0,
    ensures
        missing_entry(m) is None,
        config_of(m).vocab_size == vocab,
        config_of(m).hidden_dim == hidden,
        config_of(m).intermediate_dim == inner,
        config_of(m).n_layers == layers,
        config_of(m).n_heads == heads,
        config_of(m).head_dim * heads <= hidden < (config_of(m).head_dim + 1) * heads,
        map_get(m, "llama.attention.head_count_kv"@) is None ==> config_of(m).n_kv_heads == heads,
        map_get(m, "llama.attention.head_count_kv"@) matches Some(MetaView::U32(v)) ==> config_of(m).n_kv_heads == v,
        map_get(m, "llama.context_length"@) is None ==> config_of(m).max_seq_len == 2048,
        map_get(m, "llama.context_length"@) matches Some(MetaView::U32(v)) ==> config_of(m).max_seq_len == v,
        map_get(m, "llama.rope.freq_base"@) matches Some(MetaView::F32(v)) ==> config_of(m).rope_theta == FloatBits::Single(
            v,
        ),
        map_get(m, "llama.attention.layer_norm_rms_epsilon"@) matches Some(MetaView::F32(v)) ==> config_of(m).norm_eps
            == FloatBits::Single(v),
{
    let q = hidden as int / heads as int;
    assert(q * heads <= hidden < (q + 1) * heads) by (nonlinear_arith)
        requires
            q == hidden as int / heads as int,
            heads > 0,
    ;
}

/// Each entry that a configuration needs is asked for.
pub proof fn law_missing_entry_is_told(m: Seq<(Seq<char>, MetaView)>)
    ensures
        map_get(m, "llama.vocab_size"@) is None && map_get(m, "general.vocab_size"@) is None ==> missing_entry(m) is Some,
        map_get(m, "llama.embedding_length"@) is None ==> missing_entry(m) is Some,
        map_get(m, "llama.feed_forward_length"@) is None ==> missing_entry(m) is Some,
        map_get(m, "llama.block_count"@) is None ==> missing_entry(m) is Some,
        map_get(m, "llama.attention.head_count"@) is None ==> missing_entry(m) is Some,
{
}

// ---------------------------------------------------------------------------
// Generation
// ---------------------------------------------------------------------------

/// A generation after the model has run `n` times more, with nothing sampled between.
pub open spec fn after_runs(g: GenView, n: nat) -> GenView
    decreases n,
{
    if n == 0 {
        g
    } else {
        after_runs(g, (n - 1) as nat).ran().0
    }
}

/// The model is run on the prompt, token by token and in order, before anything is
/// sampled: after the `k`-th token comes the next one, and after the last one the
/// sampling.
pub proof fn law_prompt_is_run_in_order(g: GenView, k: nat)
    requires
        g.fed == 1,
        k < g.prompt.len(),
    ensures
        after_runs(g, k).ran().1 == if k + 1 < g.prompt.len() {
            GenAction::Forward(g.prompt[k as int + 1])
        } else {
            GenAction::Sample
        },
        after_runs(g, k).output == g.output,
        after_runs(g, k).runs == g.runs + k,
{
    lemma_after_runs(g, k);
}

proof fn lemma_after_runs(g: GenView, k: nat)
    requires
        g.fed == 1,
        k < g.prompt.len(),
    ensures
        after_runs(g, k) == (GenView { runs: g.runs + k, fed: g.fed + k, ..g }),
    decreases k,
{
    if k > 0 {
        lemma_after_runs(g, (k - 1) as nat);
    }
}

/// A sampled token is taken, and run next, unless it ends the generation: a stop token is
/// not taken, nor one beyond the wanted number, and where the context is full it is the
/// last one.
pub proof fn law_sampled_token(g: GenView, token: u32)
    requires
        g.left >= 0,
    ensures
        ({
            let (after, action) = g.offered(token);
            &&& g.left > 0 && !g.stop_tokens.contains(token) <==> after.output == g.output.push(token)
            &&& g.left == 0 || g.stop_tokens.contains(token) <==> after.output == g.output
            &&& action == GenAction::Forward(token) <==> g.left > 0 && !g.stop_tokens.contains(token) && g.runs
                < g.max_seq_len
            &&& action != GenAction::Forward(token) ==> action == GenAction::Finish
            &&& action == GenAction::Finish ==> (after.cause == if g.left == 0 {
                StopCause::Limit
            } else if g.stop_tokens.contains(token) {
                StopCause::Token(token)
            } else {
                StopCause::Context
            })
        }),
{
    assert(g.output.push(token).len() != g.output.len());
}

} // verus!
