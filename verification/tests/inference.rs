use squirrel::inference::api::{ApiInferenceBackend, ApiProvider};
use squirrel::inference::backend::{FinishReason, InferenceError, InferenceRequest, InferenceResponse};
use squirrel::inference::gguf::{FloatBits, GgmlType, GgufFile, MetadataValue};
use squirrel::inference::json::{escape, extract_json_string};
use squirrel::inference::local::{is_measurable, LocalInferenceBackend};
use squirrel::inference::router::{InferenceRouter, Route, Taken};
use squirrel::inference::sampling::{greedy_token, is_greedy};
use squirrel::inference::score::{is_greater, minus_index_bits};
use squirrel::inference::settings::{configure, get_api_settings, get_current_backend, InferenceSettings};
use squirrel::inference::tensor::{f16_to_f32, load_f32_tensor, Weight};
use squirrel::inference::tokenizer::Tokenizer;
use squirrel::inference::transformer::{GenAction, Generation, ModelConfig, StopCause, TransformerModel};
use squirrel::intent_bus::bus::IntentBus;
use squirrel::intent_bus::intent::Intent;
use squirrel::intent_bus::payloads::GlassBoxUpdate;
use squirrel::sart::agent::{AgentContext, CognitivePriority};

// --- model files -------------------------------------------------------------

/// Builds the bytes of a model file.
struct File {
    metadata: Vec<u8>,
    entries: u64,
    tensors: Vec<u8>,
    count: u64,
    data: Vec<u8>,
}

fn put_text(out: &mut Vec<u8>, s: &str) {
    out.extend_from_slice(&(s.len() as u64).to_le_bytes());
    out.extend_from_slice(s.as_bytes());
}

impl File {
    fn new() -> File {
        File { metadata: vec![], entries: 0, tensors: vec![], count: 0, data: vec![] }
    }

    fn u32(mut self, key: &str, v: u32) -> File {
        put_text(&mut self.metadata, key);
        self.metadata.extend_from_slice(&4u32.to_le_bytes());
        self.metadata.extend_from_slice(&v.to_le_bytes());
        self.entries += 1;
        self
    }

    fn f32(mut self, key: &str, v: f32) -> File {
        put_text(&mut self.metadata, key);
        self.metadata.extend_from_slice(&6u32.to_le_bytes());
        self.metadata.extend_from_slice(&v.to_le_bytes());
        self.entries += 1;
        self
    }

    fn text(mut self, key: &str, v: &str) -> File {
        put_text(&mut self.metadata, key);
        self.metadata.extend_from_slice(&8u32.to_le_bytes());
        put_text(&mut self.metadata, v);
        self.entries += 1;
        self
    }

    fn texts(mut self, key: &str, v: &[&str]) -> File {
        put_text(&mut self.metadata, key);
        self.metadata.extend_from_slice(&9u32.to_le_bytes());
        self.metadata.extend_from_slice(&8u32.to_le_bytes());
        self.metadata.extend_from_slice(&(v.len() as u64).to_le_bytes());
        for s in v {
            put_text(&mut self.metadata, s);
        }
        self.entries += 1;
        self
    }

    fn f32s(mut self, key: &str, v: &[f32]) -> File {
        put_text(&mut self.metadata, key);
        self.metadata.extend_from_slice(&9u32.to_le_bytes());
        self.metadata.extend_from_slice(&6u32.to_le_bytes());
        self.metadata.extend_from_slice(&(v.len() as u64).to_le_bytes());
        for s in v {
            self.metadata.extend_from_slice(&s.to_le_bytes());
        }
        self.entries += 1;
        self
    }

    fn tensor(mut self, name: &str, values: &[f32]) -> File {
        put_text(&mut self.tensors, name);
        self.tensors.extend_from_slice(&1u32.to_le_bytes());
        self.tensors.extend_from_slice(&(values.len() as u64).to_le_bytes());
        self.tensors.extend_from_slice(&0u32.to_le_bytes());
        self.tensors.extend_from_slice(&(self.data.len() as u64).to_le_bytes());
        for v in values {
            self.data.extend_from_slice(&v.to_le_bytes());
        }
        self.count += 1;
        self
    }

    /// A tensor with more elements than can be counted.
    fn endless(mut self, name: &str) -> File {
        put_text(&mut self.tensors, name);
        self.tensors.extend_from_slice(&2u32.to_le_bytes());
        self.tensors.extend_from_slice(&u64::MAX.to_le_bytes());
        self.tensors.extend_from_slice(&2u64.to_le_bytes());
        self.tensors.extend_from_slice(&0u32.to_le_bytes());
        self.tensors.extend_from_slice(&0u64.to_le_bytes());
        self.count += 1;
        self
    }

    fn bytes(&self) -> Vec<u8> {
        let mut out = b"GGUF".to_vec();
        out.extend_from_slice(&3u32.to_le_bytes());
        out.extend_from_slice(&self.count.to_le_bytes());
        out.extend_from_slice(&self.entries.to_le_bytes());
        out.extend_from_slice(&self.metadata);
        out.extend_from_slice(&self.tensors);
        while out.len() % 32 != 0 {
            out.push(0);
        }
        out.extend_from_slice(&self.data);
        out
    }
}

fn config_file() -> File {
    File::new()
        .u32("llama.vocab_size", 5)
        .u32("llama.embedding_length", 8)
        .u32("llama.feed_forward_length", 16)
        .u32("llama.block_count", 1)
        .u32("llama.attention.head_count", 2)
}

fn model_file() -> File {
    let mut f = config_file()
        .text("general.name", "tiny")
        .texts("tokenizer.ggml.tokens", &["<unk>", "<s>", "</s>", "a", "b"])
        .tensor("token_embd.weight", &[1.5, -2.0])
        .tensor("output_norm.weight", &[0.5]);
    for t in [
        "attn_norm", "attn_q", "attn_k", "attn_v", "attn_output", "ffn_norm", "ffn_gate", "ffn_down", "ffn_up",
    ] {
        f = f.tensor(&format!("blk.0.{}.weight", t), &[0.25]);
    }
    f
}

#[test]
fn model_file_is_parsed() {
    let bytes = model_file().bytes();
    let g = GgufFile::parse(&bytes).unwrap();
    assert_eq!(g.version, 3);
    assert_eq!(g.meta_str("general.name"), Some("tiny"));
    assert_eq!(g.meta_u32("llama.block_count"), Some(1));
    assert_eq!(g.meta_u64("llama.block_count"), Some(1));
    assert_eq!(g.meta_str("llama.block_count"), None);
    assert_eq!(g.meta_u32("absent"), None);
    assert_eq!(g.tensors.len(), 11);
    let data = g.tensor_data("token_embd.weight").unwrap();
    assert_eq!(data, [1.5f32.to_le_bytes(), (-2.0f32).to_le_bytes()].concat());
    assert!(g.tensor_data("absent").is_none());
    assert_eq!(g.tensor_data_offset % 32, 0);
}

#[test]
fn broken_model_files_are_refused() {
    let bytes = model_file().bytes();
    assert_eq!(GgufFile::parse(&bytes[..3]).err(), Some("GGUF: truncated magic"));
    assert_eq!(GgufFile::parse(&bytes[..7]).err(), Some("GGUF: truncated version"));
    assert_eq!(GgufFile::parse(&bytes[..9]).err(), Some("GGUF: truncated tensor count"));
    assert_eq!(GgufFile::parse(&bytes[..17]).err(), Some("GGUF: truncated metadata count"));
    assert_eq!(GgufFile::parse(&bytes[..25]).err(), Some("GGUF: truncated metadata key"));
    let mut other = bytes.clone();
    other[0] = b'X';
    assert_eq!(GgufFile::parse(&other).err(), Some("GGUF: invalid magic (not a GGUF file)"));
    let mut other = bytes.clone();
    other[4] = 9;
    assert_eq!(GgufFile::parse(&other).err(), Some("GGUF: unsupported version (need v2 or v3)"));
    let mut other = bytes.clone();
    other[16..24].copy_from_slice(&200_000u64.to_le_bytes());
    assert_eq!(GgufFile::parse(&other).err(), Some("GGUF: unreasonable tensor/metadata count"));
}

#[test]
fn tensor_types_have_their_sizes() {
    assert!(GgmlType::from_u32(8) == Some(GgmlType::Q8_0));
    assert!(GgmlType::from_u32(4).is_none());
    assert_eq!(GgmlType::F32.tensor_bytes(3), 12);
    assert_eq!(GgmlType::F16.tensor_bytes(3), 6);
    assert_eq!(GgmlType::Q8_0.tensor_bytes(64), 68);
    assert_eq!(GgmlType::Q4_0.tensor_bytes(64), 36);
    assert_eq!(GgmlType::Q4_0.block_size(), 32);
}

#[test]
fn metadata_values_convert() {
    assert_eq!(MetadataValue::I32(-1).as_u32(), Some(u32::MAX));
    assert_eq!(MetadataValue::U64(0x1_0000_0005).as_u32(), Some(5));
    assert_eq!(MetadataValue::U8(7).as_u32(), None);
    assert_eq!(MetadataValue::U64(9).as_u64(), Some(9));
    assert!(MetadataValue::F32(5).as_f32() == Some(FloatBits::Single(5)));
    assert_eq!(MetadataValue::Bool(true).as_u32(), None);
    assert_eq!(MetadataValue::String(String::from("x")).as_str(), Some("x"));
}

#[test]
fn configuration_is_read() {
    let bytes = config_file().bytes();
    let c = ModelConfig::from_gguf(&GgufFile::parse(&bytes).unwrap()).unwrap();
    assert_eq!((c.vocab_size, c.hidden_dim, c.intermediate_dim, c.n_layers), (5, 8, 16, 1));
    assert_eq!((c.n_heads, c.n_kv_heads, c.head_dim, c.max_seq_len), (2, 2, 4, 2048));
    assert!(c.rope_theta == FloatBits::Single(10000.0f32.to_bits()));
    assert!(c.norm_eps == FloatBits::Single(1e-5f32.to_bits()));
    let bytes = config_file().u32("llama.attention.head_count_kv", 1).f32("llama.rope.freq_base", 5.0).bytes();
    let c = ModelConfig::from_gguf(&GgufFile::parse(&bytes).unwrap()).unwrap();
    assert_eq!(c.n_kv_heads, 1);
    assert!(c.rope_theta == FloatBits::Single(5.0f32.to_bits()));
    let bytes = File::new().u32("general.vocab_size", 1).bytes();
    let e = ModelConfig::from_gguf(&GgufFile::parse(&bytes).unwrap()).err();
    assert_eq!(e, Some("GGUF: missing embedding_length"));
    let bytes = File::new().bytes();
    let e = ModelConfig::from_gguf(&GgufFile::parse(&bytes).unwrap()).err();
    assert_eq!(e, Some("GGUF: missing vocab_size"));
}

#[test]
fn weights_are_loaded() {
    let bytes = model_file().bytes();
    let m = TransformerModel::from_gguf(&GgufFile::parse(&bytes).unwrap()).unwrap();
    assert_eq!(m.tensors.len(), 11);
    assert!(m.tensors[0] == vec![Weight::Exact(1.5f32.to_bits()), Weight::Exact((-2.0f32).to_bits())]);
    assert!(m.output_weight.is_none());
    let bytes = config_file().bytes();
    let e = TransformerModel::from_gguf(&GgufFile::parse(&bytes).unwrap()).err();
    assert_eq!(e, Some("GGUF: missing tensor"));
}

#[test]
fn half_precision_is_widened() {
    assert_eq!(f32::from_bits(f16_to_f32(0x3C00)), 1.0);
    assert_eq!(f32::from_bits(f16_to_f32(0xC000)), -2.0);
    assert_eq!(f32::from_bits(f16_to_f32(0x0001)), 5.9604645e-8);
    assert_eq!(f32::from_bits(f16_to_f32(0x03FF)), 6.097555e-5);
    assert_eq!(f32::from_bits(f16_to_f32(0x7C00)), f32::INFINITY);
    assert!(f32::from_bits(f16_to_f32(0x7E00)).is_nan());
    assert_eq!(f16_to_f32(0x8000), 0x8000_0000);
}

#[test]
fn quantized_weights_have_their_scale() {
    let mut block = vec![0x00, 0x3C];
    block.extend((0..32).map(|i| if i == 1 { 0xFE } else { 3 }));
    let w = load_f32_tensor(&block, GgmlType::Q8_0, 32);
    assert_eq!(w.len(), 32);
    assert!(w[0] == Weight::Scaled { quant: 3, scale: 1.0f32.to_bits() });
    assert!(w[1] == Weight::Scaled { quant: -2, scale: 1.0f32.to_bits() });
    let mut block = vec![0x00, 0x40];
    block.extend([0x9F; 16]);
    let w = load_f32_tensor(&block, GgmlType::Q4_0, 32);
    assert!(w[0] == Weight::Scaled { quant: 7, scale: 2.0f32.to_bits() });
    assert!(w[1] == Weight::Scaled { quant: 1, scale: 2.0f32.to_bits() });
    assert!(load_f32_tensor(&[0; 8], GgmlType::Q6K, 2) == vec![Weight::Exact(0), Weight::Exact(0)]);
}

// --- tokens ------------------------------------------------------------------

fn tokenizer_file() -> File {
    File::new()
        .texts("tokenizer.ggml.tokens", &["<unk>", "<s>", "</s>", "a", "b", "c", "ab", "abc", "<0xC3>", "<0xA9>", "\u{2581}", "bc"])
        .f32s(
            "tokenizer.ggml.scores",
            &[0.0, 0.0, 0.0, 0.0, 0.0, 0.0, -1.0, -2.0, 0.0, 0.0, 0.0, -5.0],
        )
}

#[test]
fn text_is_encoded_by_merging() {
    let bytes = tokenizer_file().bytes();
    let t = Tokenizer::from_gguf(&GgufFile::parse(&bytes).unwrap()).unwrap();
    assert_eq!(t.vocab_size(), 12);
    assert_eq!((t.bos(), t.eos()), (1, 2));
    assert_eq!(t.encode("abc"), vec![7]);
    assert_eq!(t.encode("bca"), vec![11, 3]);
    assert_eq!(t.encode("\u{e9}"), vec![8, 9]);
    assert_eq!(t.encode("z"), Vec::<u32>::new());
    assert_eq!(t.encode(""), Vec::<u32>::new());
    assert_eq!(t.token_str(7), "abc");
    assert_eq!(t.token_str(99), "");
}

#[test]
fn tokens_are_decoded() {
    let bytes = tokenizer_file().bytes();
    let t = Tokenizer::from_gguf(&GgufFile::parse(&bytes).unwrap()).unwrap();
    assert_eq!(t.decode(&[10, 3, 10, 7]), "a abc");
    assert_eq!(t.decode(&t.encode("abcab")), "abcab");
    assert_eq!(t.decode(&[]), "");
}

#[test]
fn missing_tokens_are_an_error() {
    let bytes = File::new().bytes();
    let e = Tokenizer::from_gguf(&GgufFile::parse(&bytes).unwrap()).err();
    assert_eq!(e, Some("GGUF: missing tokenizer.ggml.tokens"));
    let bytes = File::new().u32("tokenizer.ggml.tokens", 1).bytes();
    let e = Tokenizer::from_gguf(&GgufFile::parse(&bytes).unwrap()).err();
    assert_eq!(e, Some("GGUF: tokenizer.ggml.tokens is not an array"));
}

#[test]
fn scores_compare_as_numbers() {
    assert!(is_greater(1.0f32.to_bits(), (-1.0f32).to_bits()));
    assert!(is_greater((-1.0f32).to_bits(), f32::NEG_INFINITY.to_bits()));
    assert!(!is_greater(0.0f32.to_bits(), (-0.0f32).to_bits()));
    assert!(!is_greater(f32::NAN.to_bits(), 1.0f32.to_bits()));
    for i in [0u64, 1, 2, 3, 255, 16_777_217, 16_777_219, 33_554_435] {
        assert_eq!(minus_index_bits(i), (-(i as f32)).to_bits());
    }
}

#[test]
fn greedy_sampling_takes_the_first_maximum() {
    let bits: Vec<u32> = [0.5f32, 2.0, -1.0, 2.0].iter().map(|v| v.to_bits()).collect();
    assert_eq!(greedy_token(&bits), 1);
    assert_eq!(greedy_token(&[f32::NAN.to_bits(), 1.0f32.to_bits()]), 0);
    assert!(is_greedy(0.0f32.to_bits()));
    assert!(is_greedy((-1.0f32).to_bits()));
    assert!(is_greedy(9e-7f32.to_bits()));
    assert!(!is_greedy(1e-6f32.to_bits()));
    assert!(!is_greedy(0.7f32.to_bits()));
    assert!(!is_greedy(f32::NAN.to_bits()));
}

// --- generation --------------------------------------------------------------

#[test]
fn generation_runs_prompt_then_samples() {
    let (mut g, a) = Generation::start(vec![1, 5], 3, 100, vec![2]);
    assert!(a == GenAction::Forward(1));
    assert!(g.forwarded() == GenAction::Forward(5));
    assert!(g.forwarded() == GenAction::Sample);
    assert!(g.sampled(7) == GenAction::Forward(7));
    assert!(g.forwarded() == GenAction::Sample);
    assert!(g.sampled(2) == GenAction::Finish);
    assert_eq!(g.output(), &vec![7]);
    assert!(g.cause() == StopCause::Token(2));
}

#[test]
fn generation_stops_at_its_limits() {
    let (mut g, _) = Generation::start(vec![1], 1, 100, vec![2]);
    g.forwarded();
    assert!(g.sampled(7) == GenAction::Forward(7));
    g.forwarded();
    assert!(g.sampled(8) == GenAction::Finish);
    assert!(g.cause() == StopCause::Limit);
    assert_eq!(g.output(), &vec![7]);
    let (mut g, _) = Generation::start(vec![1], 9, 1, vec![2]);
    g.forwarded();
    assert!(g.sampled(7) == GenAction::Finish);
    assert!(g.cause() == StopCause::Context);
    let (_, a) = Generation::start(vec![], 9, 9, vec![2]);
    assert!(a == GenAction::Forward(1));
}

fn request(prompt: &str) -> InferenceRequest {
    InferenceRequest {
        prompt: String::from(prompt),
        max_tokens: 4,
        temperature: 0.7f32.to_bits(),
        stop_sequences: vec![String::from("b"), String::from("ab")],
    }
}

#[test]
fn local_backend_loads_and_answers() {
    assert!(matches!(LocalInferenceBackend::try_load(), Err(InferenceError::NoLocalModel)));
    let bytes = model_file().bytes();
    assert!(is_measurable(&bytes));
    let b = LocalInferenceBackend::from_gguf_bytes(&bytes).unwrap();
    assert_eq!(b.name(), "tiny");
    assert!(b.is_available());
    assert_eq!(b.prompt_tokens(&request("ab")), vec![1, 3, 4]);
    assert_eq!(b.stop_tokens(&request("ab")), vec![2, 4]);
    let r = b.finish(&request(""), &vec![3, 3], StopCause::Token(2), 5);
    assert_eq!((r.text.as_str(), r.tokens_generated, r.latency_ms), ("aa", 2, 5));
    assert_eq!(r.backend_used, "local (tiny)");
    assert!(r.finish_reason == FinishReason::EndOfSequence);
    let r = b.finish(&request(""), &vec![3], StopCause::Token(4), 5);
    assert!(r.finish_reason == FinishReason::StopSequence);
    let r = b.finish(&request(""), &vec![3, 3, 3, 3], StopCause::Limit, 5);
    assert!(r.finish_reason == FinishReason::MaxTokens);
    let r = b.finish(&request(""), &vec![3, 4], StopCause::Sequence, 5);
    assert!(r.finish_reason == FinishReason::StopSequence);
    assert!(matches!(LocalInferenceBackend::from_gguf_bytes(b"junk"), Err(InferenceError::ModelLoadFailed)));
    assert!(is_measurable(b"junk"));
    let no_heads = model_file().u32("llama.attention.head_count", 0).bytes();
    assert!(!is_measurable(&no_heads));
}

#[test]
fn only_needed_tensors_are_counted() {
    let spare = model_file().endless("rope_freqs.weight").bytes();
    assert!(is_measurable(&spare));
    assert_eq!(LocalInferenceBackend::from_gguf_bytes(&spare).unwrap().name(), "tiny");
    assert!(!is_measurable(&model_file().endless("output.weight").bytes()));
    // What stands behind a tensor that is missing is not reached.
    let cut = config_file()
        .texts("tokenizer.ggml.tokens", &["<unk>", "<s>", "</s>", "a", "b"])
        .endless("output.weight")
        .bytes();
    assert!(is_measurable(&cut));
    assert!(matches!(LocalInferenceBackend::from_gguf_bytes(&cut), Err(InferenceError::ModelLoadFailed)));
}

#[test]
fn stop_sequences_end_a_generation() {
    let b = LocalInferenceBackend::from_gguf_bytes(&model_file().bytes()).unwrap();
    let q = InferenceRequest {
        prompt: String::new(),
        max_tokens: 9,
        temperature: 0,
        stop_sequences: vec![String::new(), String::from("aab")],
    };
    let (mut g, _) = Generation::start(b.prompt_tokens(&q), q.max_tokens, 100, b.stop_tokens(&q));
    assert!(g.forwarded() == GenAction::Sample);
    assert!(b.sampled(&q, &mut g, 3) == GenAction::Forward(3));
    g.forwarded();
    assert!(b.sampled(&q, &mut g, 3) == GenAction::Forward(3));
    g.forwarded();
    assert!(b.sampled(&q, &mut g, 4) == GenAction::Finish);
    assert!(g.cause() == StopCause::Sequence);
    assert_eq!(g.output(), &vec![3, 3, 4]);
}

// --- services ----------------------------------------------------------------

#[test]
fn json_strings_are_escaped_and_extracted() {
    assert_eq!(escape("a\"b\\c\nd\re\tf"), "a\\\"b\\\\c\\nd\\re\\tf");
    assert_eq!(escape("x\u{1}y\u{1b}\u{7f}"), "x\\u0001y\\u001B\u{7f}");
    assert_eq!(extract_json_string("{\"content\":  \"a\\\"b\\nc\"}", "\"content\":"), Some(String::from("a\"b\nc")));
    assert_eq!(extract_json_string("{\"content\": 5}", "\"content\":"), None);
    assert_eq!(extract_json_string("{\"content\":\"open", "\"content\":"), None);
    assert_eq!(extract_json_string("{}", "\"content\":"), None);
    let round = format!("\"k\":\"{}\"", escape("x\\\"\n\t\r"));
    assert_eq!(extract_json_string(&round, "\"k\":"), Some(String::from("x\\\"\n\t\r")));
}

fn service(p: ApiProvider) -> ApiInferenceBackend {
    ApiInferenceBackend::new(p, String::from("KEY"), String::from("m"), String::from("http://own/v1"))
}

#[test]
fn services_are_addressed() {
    assert_eq!(service(ApiProvider::OpenAi).build_url(), "http://api.openai.com/v1/chat/completions");
    assert_eq!(service(ApiProvider::Anthropic).build_url(), "http://api.anthropic.com/v1/messages");
    assert_eq!(
        service(ApiProvider::Gemini).build_url(),
        "http://generativelanguage.googleapis.com/v1beta/models/m:generateContent?key=KEY"
    );
    assert_eq!(service(ApiProvider::Custom).build_url(), "http://own/v1");
    assert_eq!(
        service(ApiProvider::OpenAi).build_headers(),
        vec![(String::from("Authorization"), String::from("Bearer KEY"))]
    );
    assert_eq!(service(ApiProvider::Anthropic).build_headers().len(), 2);
    assert!(service(ApiProvider::Gemini).build_headers().is_empty());
    assert_eq!(service(ApiProvider::Gemini).provider_name(), "gemini");
    assert_eq!(service(ApiProvider::Gemini).name(), "m");
}

#[test]
fn service_bodies_are_built() {
    let body = |p: ApiProvider| String::from_utf8(service(p).build_body(&request("hi\n"), "0.7")).unwrap();
    assert_eq!(
        body(ApiProvider::OpenAi),
        "{\"model\":\"m\",\"messages\":[{\"role\":\"user\",\"content\":\"hi\\n\"}],\"max_tokens\":4,\"temperature\":0.7}"
    );
    assert_eq!(
        body(ApiProvider::Anthropic),
        "{\"model\":\"m\",\"max_tokens\":4,\"messages\":[{\"role\":\"user\",\"content\":\"hi\\n\"}]}"
    );
    assert_eq!(body(ApiProvider::Gemini), "{\"contents\":[{\"parts\":[{\"text\":\"hi\\n\"}]}]}");
    assert!(matches!(
        service(ApiProvider::OpenAi).prepare(&request("x"), "0.7", false),
        Err(InferenceError::NetworkUnavailable)
    ));
    assert_eq!(service(ApiProvider::Custom).prepare(&request("x"), "0.7", true).unwrap().url, "http://own/v1");
}

#[test]
fn service_replies_are_answered() {
    let s = service(ApiProvider::Anthropic);
    let ok = s.finish(Ok((200, b"{\"text\":\"hello\"}".to_vec())), 12).unwrap();
    assert_eq!((ok.text.as_str(), ok.backend_used.as_str(), ok.latency_ms), ("hello", "anthropic (m)", 12));
    let e = s.finish(Ok((500, b"oops".to_vec())), 12).err().unwrap();
    assert_eq!(e.message(), "API error: HTTP 500 \u{2014} oops");
    let e = s.finish(Ok((500, vec![0xff])), 12).err().unwrap();
    assert_eq!(e.message(), "API error: HTTP 500 \u{2014} (binary)");
    let e = s.finish(Err(String::from("no route")), 12).err().unwrap();
    assert_eq!(e.message(), "API error: HTTP error: no route");
    let long = "x".repeat(300);
    let e = s.finish(Ok((200, long.as_bytes().to_vec())), 12).err().unwrap();
    assert_eq!(e.message(), format!("API error: Could not parse response: {}", "x".repeat(200)));
    let e = s.finish(Ok((200, vec![0xff])), 12).err().unwrap();
    assert_eq!(e.message(), "API error: Invalid UTF-8 response");
}

#[test]
fn errors_are_shown() {
    assert_eq!(
        InferenceError::NoLocalModel.message(),
        "No local model found. Use 'settings' to configure a cloud API."
    );
    assert_eq!(InferenceError::NetworkUnavailable.message(), "Network unavailable");
    assert_eq!(InferenceError::ModelLoadFailed.message(), "Model load failed");
    assert_eq!(InferenceError::InvalidRequest.message(), "Invalid inference request");
    assert_eq!(InferenceError::Timeout.message(), "Inference timed out");
}

#[test]
fn settings_have_defaults() {
    let mut s = InferenceSettings::new("some-model");
    assert_eq!(get_current_backend(&s), "local");
    let (_, model, _, provider) = get_api_settings(&s, "anthropic");
    assert!(provider == ApiProvider::Anthropic);
    assert_eq!(model, "some-model");
    assert_eq!(get_api_settings(&s, "openai").1, "gpt-4o");
    assert_eq!(get_api_settings(&s, "gemini").1, "gemini-pro");
    assert_eq!(get_api_settings(&s, "custom").1, "default");
    configure(&mut s, "custom", "K", "mine", "http://x");
    assert_eq!(get_current_backend(&s), "custom");
    let (key, model, url, provider) = get_api_settings(&s, "custom");
    assert_eq!((key.as_str(), model.as_str(), url.as_str()), ("K", "mine", "http://x"));
    assert!(provider == ApiProvider::Custom);
}

// --- routing -----------------------------------------------------------------

#[test]
fn requests_are_routed_by_the_settings() {
    let router = InferenceRouter::new();
    assert!(router.local_backend.is_none());
    assert_eq!(router.name(), "inference-engine");
    assert!(router.priority() == CognitivePriority::Reasoning);
    let mut s = InferenceSettings::new("some-model");
    assert!(matches!(router.handle_generate(&s, true), Route::Refused(InferenceError::NoLocalModel)));
    configure(&mut s, "openai", "K", "", "");
    assert!(matches!(router.handle_generate(&s, true), Route::Service(_)));
    assert!(matches!(router.handle_generate(&s, false), Route::Refused(InferenceError::NetworkUnavailable)));
    configure(&mut s, "openai", "", "", "");
    assert!(matches!(router.handle_generate(&s, true), Route::Refused(InferenceError::NetworkUnavailable)));
    configure(&mut s, "nowhere", "K", "", "");
    match router.handle_generate(&s, true) {
        Route::Refused(e) => assert_eq!(e.message(), "API error: Unknown backend: 'nowhere'"),
        _ => panic!("no such backend"),
    }
}

#[test]
fn router_takes_requests_and_answers() {
    let mut bus = IntentBus::new();
    let router = InferenceRouter::new();
    let conn = bus.connect("inference-engine", &["inference.generate"]);
    let asker = bus.connect("asker", &["inference.generate.response", "glass-box.update"]);
    let ctx = AgentContext { bus: &conn, tick: 0 };
    assert!(matches!(router.begin(&ctx, &mut bus), Taken::Nothing));
    bus.send(Intent::with_bytes("inference.generate", "x", vec![]));
    assert!(matches!(router.begin(&ctx, &mut bus), Taken::Unreadable));
    asker.send(&mut bus, Intent::request("inference.generate", "asker", &request("hi")));
    let intent = match router.begin(&ctx, &mut bus) {
        Taken::Request(i, r) => {
            assert_eq!(r.prompt, "hi");
            i
        }
        _ => panic!("a request was sent"),
    };
    let update = asker.try_recv(&mut bus).unwrap().decode::<GlassBoxUpdate>().unwrap();
    assert_eq!((update.key.as_str(), update.value.as_str()), ("status", "generating..."));
    let response = InferenceResponse {
        text: String::from("yo"),
        tokens_generated: 1,
        finish_reason: FinishReason::EndOfSequence,
        backend_used: String::from("b"),
        latency_ms: 17,
    };
    router.answer(&ctx, &mut bus, &intent, &Ok(response));
    let values: Vec<String> =
        (0..3).map(|_| asker.try_recv(&mut bus).unwrap().decode::<GlassBoxUpdate>().unwrap().value).collect();
    assert_eq!(values, vec!["b", "17", "idle"]);
    let reply = asker.try_recv(&mut bus).unwrap();
    assert_eq!(reply.reply_to, Some(intent.id));
    assert_eq!(reply.decode::<InferenceResponse>().unwrap().text, "yo");
    router.answer(&ctx, &mut bus, &intent, &Err(InferenceError::Timeout));
    let update = asker.try_recv(&mut bus).unwrap().decode::<GlassBoxUpdate>().unwrap();
    assert_eq!(update.value, "error: Inference timed out");
    assert_eq!(asker.try_recv(&mut bus).unwrap().decode::<String>().unwrap(), "Inference timed out");
}

#[test]
fn default_model_is_used_where_none_is_configured() {
    let mut s = InferenceSettings::new("some-model");
    configure(&mut s, "anthropic", "k1", "", "");
    assert_eq!(get_current_backend(&s), "anthropic");
    let (key, model, url, provider) = get_api_settings(&s, "anthropic");
    assert_eq!((key.as_str(), model.as_str(), url.as_str()), ("k1", "some-model", ""));
    assert!(provider == ApiProvider::Anthropic);
}

#[test]
fn other_intents_are_no_requests() {
    let mut bus = IntentBus::new();
    let router = InferenceRouter::new();
    let conn = bus.connect("inference-engine", &["inference"]);
    let ctx = AgentContext { bus: &conn, tick: 0 };
    bus.send(Intent::with_bytes("inference.other", "x", vec![]));
    assert!(matches!(router.begin(&ctx, &mut bus), Taken::Skipped));
}
