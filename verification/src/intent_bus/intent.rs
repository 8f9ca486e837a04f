//! Core intent types, the universal message format for all communication.
//!
//! An intent carries a semantic type (what it represents), a serialized payload,
//! a priority and metadata for routing and audit.

use vstd::prelude::*;

use crate::intent_bus::payloads::Payload;
use crate::text::{begins, starts_with, text, text_eq, text_join};

verus! {

/// Unique identifier of an intent, assigned by the bus.
pub type IntentId = u64;

/// Semantic type: a dot-separated namespaced name such as "display.render". It is
/// the routing key that subscription patterns are held against.
#[derive(Debug)]
pub struct SemanticType(pub String);

impl View for SemanticType {
    type V = Seq<char>;

    open spec fn view(&self) -> Seq<char> {
        self.0@
    }
}

impl Clone for SemanticType {
    fn clone(&self) -> (r: Self)
        ensures
            r@ == self@,
    {
        SemanticType(self.0.clone())
    }
}

/// A semantic type matches a subscription pattern when it is the pattern, or lies
/// below it: "display" is matched by "display" and by "display.render", and not by
/// "displays".
pub open spec fn type_matches(t: Seq<char>, pattern: Seq<char>) -> bool {
    t == pattern || starts_with(t, pattern.push('.'))
}

impl SemanticType {
    pub fn new(s: &str) -> (r: Self)
        ensures
            r@ == s@,
    {
        SemanticType(text(s))
    }

    /// Whether this type matches a subscription pattern, exactly or as a name below
    /// the pattern.
    pub fn matches(&self, pattern: &str) -> (r: bool)
        ensures
            r == type_matches(self@, pattern@),
    {
        if text_eq(self.0.as_str(), pattern) {
            return true;
        }
        let mut prefix = text(pattern);
        prefix.push('.');
        begins(self.0.as_str(), prefix.as_str())
    }

    pub fn as_str(&self) -> (r: &str)
        ensures
            r@ == self@,
    {
        self.0.as_str()
    }
}

/// Priority of an intent: one of higher priority is handed out first.
#[derive(Debug, Clone, Copy, PartialEq, Eq, PartialOrd, Ord, Structural)]
pub enum IntentPriority {
    Background,
    Normal,
    High,
    Critical,
}

impl IntentPriority {
    /// The place of the priority in the order, lowest first.
    pub open spec fn level(self) -> int {
        match self {
            IntentPriority::Background => 0,
            IntentPriority::Normal => 1,
            IntentPriority::High => 2,
            IntentPriority::Critical => 3,
        }
    }

    /// The place of the priority in the order, lowest first.
    pub fn rank(self) -> (r: u8)
        ensures
            r == self.level(),
    {
        match self {
            IntentPriority::Background => 0,
            IntentPriority::Normal => 1,
            IntentPriority::High => 2,
            IntentPriority::Critical => 3,
        }
    }
}

impl Default for IntentPriority {
    fn default() -> (r: Self)
        ensures
            r == IntentPriority::Normal,
    {
        IntentPriority::Normal
    }
}

/// An intent.
#[derive(Debug)]
pub struct Intent {
    /// Assigned by the bus at send time.
    pub id: IntentId,
    /// If this is a response, the id of the request that it answers.
    pub reply_to: Option<IntentId>,
    /// What this intent represents.
    pub semantic_type: SemanticType,
    /// Name of the sender, for audit and routing.
    pub sender: String,
    /// Serialized payload.
    pub payload: Vec<u8>,
    pub priority: IntentPriority,
    /// Milliseconds since boot, set by the bus.
    pub timestamp_ms: u64,
}

/// What an intent holds.
pub struct IntentView {
    pub id: IntentId,
    pub reply_to: Option<IntentId>,
    pub semantic_type: Seq<char>,
    pub sender: Seq<char>,
    pub payload: Seq<u8>,
    pub priority: IntentPriority,
    pub timestamp_ms: u64,
}

impl View for Intent {
    type V = IntentView;

    open spec fn view(&self) -> IntentView {
        IntentView {
            id: self.id,
            reply_to: self.reply_to,
            semantic_type: self.semantic_type@,
            sender: self.sender@,
            payload: self.payload@,
            priority: self.priority,
            timestamp_ms: self.timestamp_ms,
        }
    }
}

/// A copy of `v`.
pub fn copy_bytes(v: &Vec<u8>) -> (r: Vec<u8>)
    ensures
        r@ == v@,
{
    let r = v.clone();
    assert(r@ =~= v@);
    r
}

impl Clone for Intent {
    fn clone(&self) -> (r: Self)
        ensures
            r@ == self@,
    {
        Intent {
            id: self.id,
            reply_to: self.reply_to,
            semantic_type: self.semantic_type.clone(),
            sender: self.sender.clone(),
            payload: copy_bytes(&self.payload),
            priority: self.priority,
            timestamp_ms: self.timestamp_ms,
        }
    }
}

/// An intent as it stands before the bus has seen it: no id, no timestamp, normal
/// priority.
pub open spec fn fresh_intent(semantic_type: Seq<char>, sender: Seq<char>, payload: Seq<u8>) -> IntentView {
    IntentView {
        id: 0,
        reply_to: None,
        semantic_type,
        sender,
        payload,
        priority: IntentPriority::Normal,
        timestamp_ms: 0,
    }
}

/// The answer to `origin`: of the request's type with ".response" behind it, and
/// pointing back to the request.
pub open spec fn answer_to(origin: IntentView, sender: Seq<char>, payload: Seq<u8>) -> IntentView {
    IntentView {
        reply_to: Some(origin.id),
        ..fresh_intent(origin.semantic_type + ".response"@, sender, payload)
    }
}

/// What could not be read as a payload of the wanted type.
#[derive(Debug, Clone, Copy, PartialEq, Eq, Structural)]
pub struct PayloadError;

impl Intent {
    /// Create a new outgoing intent. The bus sets `id` and `timestamp_ms` when it is
    /// sent.
    pub fn request<T: Payload>(semantic_type: &str, sender: &str, payload: &T) -> (r: Self)
        ensures
            r@ == fresh_intent(semantic_type@, sender@, T::wire(payload@)),
    {
        Intent::with_bytes(semantic_type, sender, payload.encode())
    }

    /// Create a new outgoing intent whose payload is already serialized.
    pub fn with_bytes(semantic_type: &str, sender: &str, payload: Vec<u8>) -> (r: Self)
        ensures
            r@ == fresh_intent(semantic_type@, sender@, payload@),
    {
        Intent {
            id: 0,
            reply_to: None,
            semantic_type: SemanticType::new(semantic_type),
            sender: text(sender),
            payload,
            priority: IntentPriority::Normal,
            timestamp_ms: 0,
        }
    }

    /// Create a response to a prior intent.
    pub fn response<T: Payload>(origin: &Intent, sender: &str, payload: &T) -> (r: Self)
        ensures
            r@ == answer_to(origin@, sender@, T::wire(payload@)),
    {
        let response_type = text_join(origin.semantic_type.as_str(), ".response");
        let mut intent = Intent::request(response_type.as_str(), sender, payload);
        intent.reply_to = Some(origin.id);
        intent
    }

    /// Decode the payload back into a typed value. Where the payload was made by
    /// encoding a value of this type, that value comes back.
    pub fn decode<T: Payload>(&self) -> (r: Result<T, PayloadError>)
        ensures
            match r {
                Ok(v) => T::parsed(self.payload@) == Some(v@),
                Err(_) => T::parsed(self.payload@) is None,
            },
            forall|v: T::V|
                self.payload@ == #[trigger] T::wire(v) && T::sound(v) ==> T::parsed(self.payload@) == Some(v),
    {
        assert(self.payload@.subrange(0, self.payload@.len() as int) =~= self.payload@);
        match T::parse(self.payload.as_slice()) {
            Some(v) => Ok(v),
            None => Err(PayloadError),
        }
    }

    /// Set the priority.
    pub fn with_priority(self, p: IntentPriority) -> (r: Self)
        ensures
            r@ == (IntentView { priority: p, ..self@ }),
    {
        let mut intent = self;
        intent.priority = p;
        intent
    }
}

} // verus!
