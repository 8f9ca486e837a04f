//! Transformer models: configuration, weights and the generation loop.
//!
//! The forward pass and the sampling work on floating-point numbers and are not here.
//! `Generation` decides what to run next and when to stop.

use vstd::prelude::*;

use crate::inference::gguf::{
    dims_fit, meta_float_of, meta_u32_of, FloatBits, GgufFile, GgufView, MetaView,
    TensorView,
};
use crate::inference::tensor::{load_f32_tensor, weights_of, Weight};
use crate::text::{decimal, decimal_text, text};
use crate::text_map::map_get;
use crate::views::{group_views, views};

verus! {

/// Bits of the single-precision number 10000.
pub const DEFAULT_ROPE_THETA: u32 = 0x461c_4000;

/// Bits of the single-precision number nearest to 0.00001.
pub const DEFAULT_NORM_EPS: u32 = 0x3727_c5ac;

/// Context length where the metadata give none.
pub const DEFAULT_CONTEXT: u32 = 2048;

/// Dimensions of a model.
#[derive(Debug, Clone, Copy, PartialEq, Eq, Structural)]
pub struct ModelConfig {
    /// Vocabulary size.
    pub vocab_size: usize,
    /// Embedding size.
    pub hidden_dim: usize,
    /// Inner size of the feed-forward network.
    pub intermediate_dim: usize,
    /// Number of layers.
    pub n_layers: usize,
    /// Number of attention heads.
    pub n_heads: usize,
    /// Number of key/value heads.
    pub n_kv_heads: usize,
    /// Dimension per head.
    pub head_dim: usize,
    /// Frequency base of the rotary embedding.
    pub rope_theta: FloatBits,
    /// Epsilon of the normalization.
    pub norm_eps: FloatBits,
    /// Maximum sequence length.
    pub max_seq_len: usize,
}

/// The vocabulary size that the metadata give.
pub open spec fn vocab_size_of(m: Seq<(Seq<char>, MetaView)>) -> Option<u32> {
    match meta_u32_of(m, "llama.vocab_size"@) {
        Some(v) => Some(v),
        None => meta_u32_of(m, "general.vocab_size"@),
    }
}

/// The first entry that a configuration needs and the metadata lack, as an error.
pub open spec fn missing_entry(m: Seq<(Seq<char>, MetaView)>) -> Option<Seq<char>> {
    if vocab_size_of(m) is None {
        Some("GGUF: missing vocab_size"@)
    } else if meta_u32_of(m, "llama.embedding_length"@) is None {
        Some("GGUF: missing embedding_length"@)
    } else if meta_u32_of(m, "llama.feed_forward_length"@) is None {
        Some("GGUF: missing feed_forward_length"@)
    } else if meta_u32_of(m, "llama.block_count"@) is None {
        Some("GGUF: missing block_count"@)
    } else if meta_u32_of(m, "llama.attention.head_count"@) is None {
        Some("GGUF: missing head_count"@)
    } else {
        None
    }
}

/// The configuration that complete metadata give.
pub open spec fn config_of(m: Seq<(Seq<char>, MetaView)>) -> ModelConfig {
    let hidden = meta_u32_of(m, "llama.embedding_length"@)->0;
    let heads = meta_u32_of(m, "llama.attention.head_count"@)->0;
    ModelConfig {
        vocab_size: vocab_size_of(m)->0 as usize,
        hidden_dim: hidden as usize,
        intermediate_dim: meta_u32_of(m, "llama.feed_forward_length"@)->0 as usize,
        n_layers: meta_u32_of(m, "llama.block_count"@)->0 as usize,
        n_heads: heads as usize,
        n_kv_heads: match meta_u32_of(m, "llama.attention.head_count_kv"@) {
            Some(v) => v as usize,
            None => heads as usize,
        },
        head_dim: (hidden / heads) as usize,
        rope_theta: match meta_float_of(m, "llama.rope.freq_base"@) {
            Some(f) => f,
            None => FloatBits::Single(DEFAULT_ROPE_THETA),
        },
        norm_eps: match meta_float_of(m, "llama.attention.layer_norm_rms_epsilon"@) {
            Some(f) => f,
            None => FloatBits::Single(DEFAULT_NORM_EPS),
        },
        max_seq_len: match meta_u32_of(m, "llama.context_length"@) {
            Some(v) => v as usize,
            None => DEFAULT_CONTEXT as usize,
        },
    }
}

/// The metadata divide the embedding among no heads.
pub open spec fn without_heads(m: Seq<(Seq<char>, MetaView)>) -> bool {
    missing_entry(m) is None && meta_u32_of(m, "llama.attention.head_count"@) == Some(0u32)
}

/// Whether the metadata divide the embedding among no heads.
pub fn lacks_heads(gguf: &GgufFile<'_>) -> (r: bool)
    ensures
        r == without_heads(gguf@.metadata),
{
    let sized = gguf.meta_u32("llama.vocab_size").is_some() || gguf.meta_u32("general.vocab_size").is_some();
    let complete = sized && gguf.meta_u32("llama.embedding_length").is_some() && gguf.meta_u32(
        "llama.feed_forward_length",
    ).is_some() && gguf.meta_u32("llama.block_count").is_some();
    match gguf.meta_u32("llama.attention.head_count") {
        Some(n) => complete && n == 0,
        None => false,
    }
}

impl ModelConfig {
    /// Extract the configuration from the metadata.
    pub fn from_gguf(gguf: &GgufFile<'_>) -> (r: Result<Self, &'static str>)
        requires
            !without_heads(gguf@.metadata),
        ensures
            match r {
                Ok(c) => missing_entry(gguf@.metadata) is None && c == config_of(gguf@.metadata),
                Err(e) => missing_entry(gguf@.metadata) == Some(e@),
            },
    {
        let vocab_size = match gguf.meta_u32("llama.vocab_size") {
            Some(v) => v,
            None => match gguf.meta_u32("general.vocab_size") {
                Some(v) => v,
                None => {
                    return Err("GGUF: missing vocab_size");
                },
            },
        };
        let hidden = match gguf.meta_u32("llama.embedding_length") {
            Some(v) => v,
            None => {
                return Err("GGUF: missing embedding_length");
            },
        };
        let intermediate = match gguf.meta_u32("llama.feed_forward_length") {
            Some(v) => v,
            None => {
                return Err("GGUF: missing feed_forward_length");
            },
        };
        let layers = match gguf.meta_u32("llama.block_count") {
            Some(v) => v,
            None => {
                return Err("GGUF: missing block_count");
            },
        };
        let heads = match gguf.meta_u32("llama.attention.head_count") {
            Some(v) => v,
            None => {
                return Err("GGUF: missing head_count");
            },
        };
        let kv_heads = match gguf.meta_u32("llama.attention.head_count_kv") {
            Some(v) => v,
            None => heads,
        };
        let rope_theta = match gguf.meta_f32("llama.rope.freq_base") {
            Some(f) => f,
            None => FloatBits::Single(DEFAULT_ROPE_THETA),
        };
        let norm_eps = match gguf.meta_f32("llama.attention.layer_norm_rms_epsilon") {
            Some(f) => f,
            None => FloatBits::Single(DEFAULT_NORM_EPS),
        };
        let context = match gguf.meta_u32("llama.context_length") {
            Some(v) => v,
            None => DEFAULT_CONTEXT,
        };
        Ok(
            ModelConfig {
                vocab_size: vocab_size as usize,
                hidden_dim: hidden as usize,
                intermediate_dim: intermediate as usize,
                n_layers: layers as usize,
                n_heads: heads as usize,
                n_kv_heads: kv_heads as usize,
                head_dim: (hidden / heads) as usize,
                rope_theta,
                norm_eps,
                max_seq_len: context as usize,
            },
        )
    }
}

// ---------------------------------------------------------------------------
// Weights
// ---------------------------------------------------------------------------

/// The number of elements fits a `usize`.
pub open spec fn countable(t: TensorView) -> bool {
    t.elements() <= usize::MAX
}

/// The tensor of a name, where the file has one, is countable.
pub open spec fn named_countable(g: GgufView, name: Seq<char>) -> bool {
    map_get(g.tensors, name) matches Some(t) ==> countable(t)
}

/// Whether the tensor of a name, where the file has one, is countable.
fn counts_named(gguf: &GgufFile<'_>, name: &str) -> (r: bool)
    requires
        dims_fit(gguf@.tensors),
    ensures
        r == named_countable(gguf@, name@),
{
    match gguf.tensors.find(name) {
        Some(at) => {
            assert(gguf@.tensors[at as int].1.n_dims <= 4);
            gguf.tensors.value_at(at).counted_elements().is_some()
        },
        None => true,
    }
}

/// What is loaded for a tensor of a file.
pub open spec fn tensor_weights(d: Seq<u8>, g: GgufView, name: Seq<char>) -> Result<Seq<Weight>, Seq<char>> {
    match map_get(g.tensors, name) {
        None => Err("GGUF: missing tensor"@),
        Some(t) => {
            let start = g.tensor_data_offset + t.offset;
            if start + t.bytes() > d.len() {
                Err("GGUF: tensor data out of bounds"@)
            } else {
                Ok(weights_of(d.subrange(start, start + t.bytes()), t.dtype, t.elements()))
            }
        },
    }
}

/// Load a tensor.
fn load_tensor(gguf: &GgufFile<'_>, name: &str) -> (r: Result<Vec<Weight>, &'static str>)
    requires
        gguf.tensor_data_offset <= gguf.data@.len(),
        dims_fit(gguf@.tensors),
        named_countable(gguf@, name@),
    ensures
        match r {
            Ok(w) => tensor_weights(gguf.data@, gguf@, name@) == Ok::<Seq<Weight>, Seq<char>>(w@),
            Err(e) => tensor_weights(gguf.data@, gguf@, name@) == Err::<Seq<Weight>, Seq<char>>(e@),
        },
{
    let at = match gguf.tensors.find(name) {
        Some(i) => i,
        None => {
            return Err("GGUF: missing tensor");
        },
    };
    let info = gguf.tensors.value_at(at);
    assert(countable(gguf@.tensors[at as int].1));
    assert(gguf@.tensors[at as int].1.n_dims <= 4);
    match (gguf.tensor_data(name), info.counted_elements()) {
        (Some(data), Some(n)) => Ok(load_f32_tensor(data, info.dtype, n)),
        _ => Err("GGUF: tensor data out of bounds"),
    }
}

/// Tensors of one layer.
pub const LAYER_TENSORS: usize = 9;

/// The tail of the name of a layer's `j`-th tensor: the norm before the attention, the
/// query, key, value and output projections, the norm before the feed-forward network,
/// and its gate, down and up projections.
pub open spec fn layer_suffix(j: int) -> Seq<char> {
    if j == 0 {
        ".attn_norm.weight"@
    } else if j == 1 {
        ".attn_q.weight"@
    } else if j == 2 {
        ".attn_k.weight"@
    } else if j == 3 {
        ".attn_v.weight"@
    } else if j == 4 {
        ".attn_output.weight"@
    } else if j == 5 {
        ".ffn_norm.weight"@
    } else if j == 6 {
        ".ffn_gate.weight"@
    } else if j == 7 {
        ".ffn_down.weight"@
    } else {
        ".ffn_up.weight"@
    }
}

/// The names of the tensors that a model of `n` layers needs, in the order in which
/// they are loaded: the embedding, the layers, the final norm.
pub open spec fn needed_tensor(n: int, k: int) -> Seq<char> {
    if k == 0 {
        "token_embd.weight"@
    } else if k == 1 + 9 * n {
        "output_norm.weight"@
    } else {
        "blk."@ + decimal(((k - 1) / 9) as nat) + layer_suffix((k - 1) % 9)
    }
}

fn suffix_text(j: usize) -> (r: &'static str)
    ensures
        r@ == layer_suffix(j as int),
{
    if j == 0 {
        ".attn_norm.weight"
    } else if j == 1 {
        ".attn_q.weight"
    } else if j == 2 {
        ".attn_k.weight"
    } else if j == 3 {
        ".attn_v.weight"
    } else if j == 4 {
        ".attn_output.weight"
    } else if j == 5 {
        ".ffn_norm.weight"
    } else if j == 6 {
        ".ffn_gate.weight"
    } else if j == 7 {
        ".ffn_down.weight"
    } else {
        ".ffn_up.weight"
    }
}

fn needed_name(n: u64, k: u64) -> (r: String)
    requires
        n <= u32::MAX,
        k <= 1 + 9 * n,
    ensures
        r@ == needed_tensor(n as int, k as int),
{
    if k == 0 {
        text("token_embd.weight")
    } else if k == 1 + 9 * n {
        text("output_norm.weight")
    } else {
        let mut s = text("blk.");
        s.push_str(decimal_text((k - 1) / 9).as_str());
        s.push_str(suffix_text(((k - 1) % 9) as usize));
        s
    }
}

/// The tensors that a model of `n` layers needs, from the `k`-th on, behind those that
/// are loaded already. The first one that cannot be loaded is the error.
pub open spec fn load_from(
    d: Seq<u8>,
    g: GgufView,
    n: int,
    k: int,
    acc: Seq<Seq<Weight>>,
) -> Result<Seq<Seq<Weight>>, Seq<char>>
    decreases 2 + 9 * n - k,
{
    if k >= 2 + 9 * n {
        Ok(acc)
    } else {
        match tensor_weights(d, g, needed_tensor(n, k)) {
            Ok(w) => load_from(d, g, n, k + 1, acc.push(w)),
            Err(e) => Err(e),
        }
    }
}

/// Every tensor that loading looks at from the `k`-th on is countable. Loading stops at
/// the first one that cannot be loaded.
pub open spec fn reads_countable(d: Seq<u8>, g: GgufView, n: int, k: int) -> bool
    decreases 2 + 9 * n - k,
{
    if k >= 2 + 9 * n {
        named_countable(g, "output.weight"@)
    } else {
        &&& named_countable(g, needed_tensor(n, k))
        &&& tensor_weights(d, g, needed_tensor(n, k)) is Ok ==> reads_countable(d, g, n, k + 1)
    }
}

/// Every tensor that loading the model looks at is countable.
pub open spec fn model_countable(d: Seq<u8>, g: GgufView) -> bool {
    missing_entry(g.metadata) is None ==> reads_countable(d, g, config_of(g.metadata).n_layers as int, 0)
}

/// Whether every tensor that loading the model looks at is countable.
pub fn counts_model(gguf: &GgufFile<'_>) -> (r: bool)
    requires
        gguf.tensor_data_offset <= gguf.data@.len(),
        dims_fit(gguf@.tensors),
        !without_heads(gguf@.metadata),
    ensures
        r == model_countable(gguf.data@, gguf@),
{
    let config = match ModelConfig::from_gguf(gguf) {
        Ok(c) => c,
        Err(_) => {
            return true;
        },
    };
    let n = config.n_layers as u64;
    let mut k: u64 = 0;
    assert(n <= u32::MAX);
    while k < 2 + 9 * n
        invariant
            gguf.tensor_data_offset <= gguf.data@.len(),
            dims_fit(gguf@.tensors),
            n <= u32::MAX,
            k <= 2 + 9 * n,
            missing_entry(gguf@.metadata) is None,
            n == config_of(gguf@.metadata).n_layers,
            model_countable(gguf.data@, gguf@) == reads_countable(gguf.data@, gguf@, n as int, k as int),
        decreases 2 + 9 * n - k,
    {
        let name = needed_name(n, k);
        if !counts_named(gguf, name.as_str()) {
            return false;
        }
        if gguf.tensor_data(name.as_str()).is_none() {
            return true;
        }
        k += 1;
    }
    counts_named(gguf, "output.weight")
}

/// A transformer model's configuration and weights.
pub struct TransformerModel {
    pub config: ModelConfig,
    /// The embedding, the tensors of each layer, the final norm.
    pub tensors: Vec<Vec<Weight>>,
    /// The output projection; where there is none, the embedding serves.
    pub output_weight: Option<Vec<Weight>>,
}

/// The model that a file holds.
pub open spec fn model_of(d: Seq<u8>, g: GgufView) -> Result<
    (ModelConfig, Seq<Seq<Weight>>, Option<Seq<Weight>>),
    Seq<char>,
> {
    match missing_entry(g.metadata) {
        Some(e) => Err(e),
        None => {
            let c = config_of(g.metadata);
            match load_from(d, g, c.n_layers as int, 0, Seq::empty()) {
                Err(e) => Err(e),
                Ok(ts) => Ok(
                    (
                        c,
                        ts,
                        match tensor_weights(d, g, "output.weight"@) {
                            Ok(w) => Some(w),
                            Err(_) => None,
                        },
                    ),
                ),
            }
        },
    }
}

/// What a model holds.
pub open spec fn model_view(m: TransformerModel) -> (ModelConfig, Seq<Seq<Weight>>, Option<Seq<Weight>>) {
    (
        m.config,
        views(m.tensors@),
        match m.output_weight {
            Some(w) => Some(w@),
            None => None,
        },
    )
}

impl TransformerModel {
    /// Load a model from a parsed file.
    pub fn from_gguf(gguf: &GgufFile<'_>) -> (r: Result<Self, &'static str>)
        requires
            gguf.tensor_data_offset <= gguf.data@.len(),
            dims_fit(gguf@.tensors),
            model_countable(gguf.data@, gguf@),
            !without_heads(gguf@.metadata),
        ensures
            match r {
                Ok(m) => model_of(gguf.data@, gguf@) == Ok::<
                    (ModelConfig, Seq<Seq<Weight>>, Option<Seq<Weight>>),
                    Seq<char>,
                >(model_view(m)),
                Err(e) => model_of(gguf.data@, gguf@) == Err::<
                    (ModelConfig, Seq<Seq<Weight>>, Option<Seq<Weight>>),
                    Seq<char>,
                >(e@),
            },
    {
        broadcast use group_views;

        let config = match ModelConfig::from_gguf(gguf) {
            Ok(c) => c,
            Err(e) => {
                return Err(e);
            },
        };
        let n = config.n_layers as u64;
        let mut tensors: Vec<Vec<Weight>> = Vec::new();
        let mut k: u64 = 0;
        assert(n <= u32::MAX);
        while k < 2 + 9 * n
            invariant
                gguf.tensor_data_offset <= gguf.data@.len(),
                dims_fit(gguf@.tensors),
                reads_countable(gguf.data@, gguf@, n as int, k as int),
                n <= u32::MAX,
                k <= 2 + 9 * n,
                load_from(gguf.data@, gguf@, n as int, 0, Seq::empty()) == load_from(
                    gguf.data@,
                    gguf@,
                    n as int,
                    k as int,
                    views(tensors@),
                ),
                missing_entry(gguf@.metadata) is None,
                config == config_of(gguf@.metadata),
                n == config.n_layers,
            decreases 2 + 9 * n - k,
        {
            broadcast use group_views;

            let name = needed_name(n, k);
            match load_tensor(gguf, name.as_str()) {
                Ok(w) => tensors.push(w),
                Err(e) => {
                    return Err(e);
                },
            }
            k += 1;
        }
        let output_weight = match load_tensor(gguf, "output.weight") {
            Ok(w) => Some(w),
            Err(_) => None,
        };
        Ok(TransformerModel { config, tensors, output_weight })
    }
}

// ---------------------------------------------------------------------------
// Generation
// ---------------------------------------------------------------------------

/// What the generation loop wants done next.
#[derive(Debug, Clone, Copy, PartialEq, Eq, Structural)]
pub enum GenAction {
    /// Run the model on a token.
    Forward(u32),
    /// Sample a token from the logits of the last run.
    Sample,
    /// The output is complete.
    Finish,
}

/// Why a generation ended.
#[derive(Debug, Clone, Copy, PartialEq, Eq, Structural)]
pub enum StopCause {
    /// It has not ended.
    Running,
    /// The wanted number of tokens was reached.
    Limit,
    /// A stop token came.
    Token(u32),
    /// A stop sequence appeared in the output.
    Sequence,
    /// The context is full.
    Context,
}

/// A generation: first the prompt is run, then tokens are sampled and run in turn.
pub struct Generation {
    prompt: Vec<u32>,
    stop_tokens: Vec<u32>,
    max_seq_len: usize,
    /// Tokens that may still be taken.
    left: usize,
    /// Runs of the model so far.
    runs: usize,
    /// Prompt tokens run so far.
    fed: usize,
    output: Vec<u32>,
    cause: StopCause,
}

/// What a generation holds.
pub struct GenView {
    pub prompt: Seq<u32>,
    pub stop_tokens: Seq<u32>,
    pub max_seq_len: int,
    pub left: int,
    pub runs: int,
    pub fed: int,
    pub output: Seq<u32>,
    pub cause: StopCause,
}

impl View for Generation {
    type V = GenView;

    closed spec fn view(&self) -> GenView {
        GenView {
            prompt: self.prompt@,
            stop_tokens: self.stop_tokens@,
            max_seq_len: self.max_seq_len as int,
            left: self.left as int,
            runs: self.runs as int,
            fed: self.fed as int,
            output: self.output@,
            cause: self.cause,
        }
    }
}

impl GenView {
    pub open spec fn wf(self) -> bool {
        &&& self.fed <= self.prompt.len()
        &&& self.runs >= 0
        &&& self.left >= 0
        &&& forall|i: int| 0 <= i < self.output.len() ==> !self.stop_tokens.contains(#[trigger] self.output[i])
    }

    /// The loop after a token has come: at the limit or at a stop token it ends, else
    /// the token is taken, and run unless the context is full.
    pub open spec fn offered(self, token: u32) -> (GenView, GenAction) {
        if self.left == 0 {
            (GenView { cause: StopCause::Limit, ..self }, GenAction::Finish)
        } else if self.stop_tokens.contains(token) {
            (GenView { left: self.left - 1, cause: StopCause::Token(token), ..self }, GenAction::Finish)
        } else {
            let taken = GenView { left: self.left - 1, output: self.output.push(token), ..self };
            if self.runs >= self.max_seq_len {
                (GenView { cause: StopCause::Context, ..taken }, GenAction::Finish)
            } else {
                (taken, GenAction::Forward(token))
            }
        }
    }

    /// The loop after a stop sequence has appeared: it ends.
    pub open spec fn halted(self) -> (GenView, GenAction) {
        (GenView { cause: StopCause::Sequence, ..self }, GenAction::Finish)
    }

    /// The loop after the model has run: the prompt goes on, or a token is sampled.
    pub open spec fn ran(self) -> (GenView, GenAction) {
        let after = GenView { runs: self.runs + 1, ..self };
        if self.fed < self.prompt.len() {
            (GenView { fed: self.fed + 1, ..after }, GenAction::Forward(self.prompt[self.fed]))
        } else {
            (after, GenAction::Sample)
        }
    }
}

/// Whether the tokens hold a token.
fn holds_token(tokens: &Vec<u32>, token: u32) -> (r: bool)
    ensures
        r == tokens@.contains(token),
{
    let mut i: usize = 0;
    while i < tokens.len()
        invariant
            i <= tokens@.len(),
            forall|j: int| 0 <= j < i ==> tokens@[j] != token,
        decreases tokens@.len() - i,
    {
        if tokens[i] == token {
            return true;
        }
        i += 1;
    }
    false
}

impl Generation {
    /// Begin a generation. An empty prompt counts as one beginning-of-sequence token
    /// that has been sampled already.
    pub fn start(prompt: Vec<u32>, max_tokens: usize, max_seq_len: usize, stop_tokens: Vec<u32>) -> (r: (
        Self,
        GenAction,
    ))
        ensures
            ({
                let begun = GenView {
                    prompt: prompt@,
                    stop_tokens: stop_tokens@,
                    max_seq_len: max_seq_len as int,
                    left: max_tokens as int,
                    runs: 0,
                    fed: 0,
                    output: Seq::empty(),
                    cause: StopCause::Running,
                };
                if prompt@.len() == 0 {
                    (r.0@, r.1) == begun.offered(1)
                } else {
                    r.0@ == GenView { fed: 1, ..begun } && r.1 == GenAction::Forward(prompt@[0])
                }
            }),
            r.0@.wf(),
    {
        let mut g = Generation {
            prompt,
            stop_tokens,
            max_seq_len,
            left: max_tokens,
            runs: 0,
            fed: 0,
            output: Vec::new(),
            cause: StopCause::Running,
        };
        if g.prompt.len() == 0 {
            let a = g.sampled(1);
            (g, a)
        } else {
            g.fed = 1;
            let first = g.prompt[0];
            (g, GenAction::Forward(first))
        }
    }

    /// The model has run on the token that was asked for.
    pub fn forwarded(&mut self) -> (r: GenAction)
        requires
            old(self)@.wf(),
            old(self)@.runs < usize::MAX,
        ensures
            (final(self)@, r) == old(self)@.ran(),
            final(self)@.wf(),
    {
        self.runs += 1;
        if self.fed < self.prompt.len() {
            let token = self.prompt[self.fed];
            self.fed += 1;
            GenAction::Forward(token)
        } else {
            GenAction::Sample
        }
    }

    /// A token has been sampled.
    pub fn sampled(&mut self, token: u32) -> (r: GenAction)
        requires
            old(self)@.wf(),
        ensures
            (final(self)@, r) == old(self)@.offered(token),
            final(self)@.wf(),
    {
        let ghost wanted = old(self)@.offered(token).0;
        if self.left == 0 {
            self.cause = StopCause::Limit;
            assert(self@ == wanted);
            return GenAction::Finish;
        }
        self.left -= 1;
        if holds_token(&self.stop_tokens, token) {
            self.cause = StopCause::Token(token);
            assert(self@ == wanted);
            return GenAction::Finish;
        }
        self.output.push(token);
        assert forall|i: int| 0 <= i < self@.output.len() implies !self@.stop_tokens.contains(
            #[trigger] self@.output[i],
        ) by {
            if i < old(self)@.output.len() {
                assert(self@.output[i] == old(self)@.output[i]);
            }
        }
        if self.runs >= self.max_seq_len {
            self.cause = StopCause::Context;
            assert(self@ == wanted);
            GenAction::Finish
        } else {
            assert(self@ == wanted);
            GenAction::Forward(token)
        }
    }

    /// A stop sequence has appeared in the output.
    pub fn stopped(&mut self) -> (r: GenAction)
        requires
            old(self)@.wf(),
        ensures
            (final(self)@, r) == old(self)@.halted(),
            final(self)@.wf(),
    {
        self.cause = StopCause::Sequence;
        assert(self@.output == old(self)@.output);
        GenAction::Finish
    }

    /// The tokens taken so far.
    pub fn output(&self) -> (r: &Vec<u32>)
        ensures
            r@ == self@.output,
    {
        &self.output
    }

    /// Why the generation ended.
    pub fn cause(&self) -> (r: StopCause)
        ensures
            r == self@.cause,
    {
        self.cause
    }
}

/// Whatever tokens come, the output never outgrows the wanted number and holds no stop
/// token: taken and still allowed tokens together never become more.
pub proof fn law_output_bounded(g: GenView, token: u32)
    requires
        g.wf(),
    ensures
        g.offered(token).0.output.len() + g.offered(token).0.left <= g.output.len() + g.left,
        g.offered(token).0.wf(),
        g.ran().0.output.len() + g.ran().0.left == g.output.len() + g.left,
        g.ran().0.wf(),
{
    let after = g.offered(token).0;
    assert forall|i: int| 0 <= i < after.output.len() implies !after.stop_tokens.contains(#[trigger] after.output[i]) by {
        if i < g.output.len() {
            assert(after.output[i] == g.output[i]);
        }
    }
}

} // verus!
