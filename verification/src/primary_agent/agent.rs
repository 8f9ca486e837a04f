//! The primary agent's conversation: user input, the model's answers, modules that are
//! open, and the status.
//!
//! Where the agent needs the file store or the settings, its turn is handed back to the
//! caller, who gets what is needed and goes on with the turn.

use vstd::prelude::*;
use vstd::utf8::*;

use crate::inference::backend::{InferenceRequest, InferenceResponse, ResponseView};
use crate::intent_bus::bus::{lemma_next_index, lemma_subscriber_named, BusState, IntentBus};
use crate::intent_bus::intent::{fresh_intent, Intent, IntentView};
use crate::intent_bus::payloads::{GlassBoxUpdate, GlassBoxUpdateView, Payload};
use crate::primary_agent::planner::{
    build_inference_request, calls_in, eq_ignore_case, opt_files, parse_tool_calls, plan_for, request_for, same_word,
    try_pattern_match, StoredFile, ToolCall, ToolView, SYSTEM_PROMPT,
};
use crate::primary_agent::tools::{reply_fits, tool_message, tool_reply_text, tool_state, tool_state_text, StoreReply};
use crate::sart::agent::{AgentContext, CognitivePriority};
use crate::text::{
    begins, contains, decimal, decimal_text, first_chars, holds, starts_with, take_chars, text, text_eq, trim, trimmed,
    utf8_text,
};
use crate::views::{group_views, views};

verus! {

/// Turns of conversation that are kept.
pub const MAX_HISTORY: usize = 6;

/// Characters of an answer that are kept.
pub const MAX_ANSWER: usize = 300;

/// Characters of an input that are published.
pub const MAX_SHOWN_INPUT: usize = 40;

/// What the agent waits for.
#[derive(Debug, Clone, Copy, PartialEq, Eq, Structural)]
pub enum AgentState {
    /// The user's input.
    WaitingForInput,
    /// The model's answer.
    WaitingForInference,
    /// A module that was opened to close.
    WaitingForModule,
}

/// One turn of conversation.
pub struct ChatTurn {
    pub user: String,
    pub assistant: String,
}

impl View for ChatTurn {
    type V = (Seq<char>, Seq<char>);

    open spec fn view(&self) -> (Seq<char>, Seq<char>) {
        (self.user@, self.assistant@)
    }
}

/// The primary agent.
pub struct PrimaryAiAgent {
    state: AgentState,
    greeted: bool,
    /// Recent turns, oldest first.
    history: Vec<ChatTurn>,
    /// The input that the model is answering.
    pending_input: String,
}

/// What the agent holds.
#[verifier::ext_equal]
pub struct PrimaryView {
    pub state: AgentState,
    pub greeted: bool,
    pub history: Seq<(Seq<char>, Seq<char>)>,
    pub pending_input: Seq<char>,
}

impl View for PrimaryAiAgent {
    type V = PrimaryView;

    closed spec fn view(&self) -> PrimaryView {
        PrimaryView {
            state: self.state,
            greeted: self.greeted,
            history: views(self.history@),
            pending_input: self.pending_input@,
        }
    }
}

/// The last turns of a conversation.
pub open spec fn recent(h: Seq<(Seq<char>, Seq<char>)>) -> Seq<(Seq<char>, Seq<char>)> {
    if h.len() > MAX_HISTORY {
        h.skip(h.len() - MAX_HISTORY)
    } else {
        h
    }
}

/// What is remembered of a turn: the user's words, and the beginning of the answer.
pub open spec fn remembered(turn: (Seq<char>, Seq<char>)) -> (Seq<char>, Seq<char>) {
    (turn.0, first_chars(turn.1, MAX_ANSWER as int))
}

/// The turns of a conversation, as the model is told of the first `n`.
pub open spec fn history_lines(h: Seq<(Seq<char>, Seq<char>)>, n: int) -> Seq<char>
    decreases n,
{
    if n <= 0 {
        Seq::empty()
    } else {
        history_lines(h, n - 1) + ("User: "@ + h[n - 1].0 + "\nAssistant: "@ + h[n - 1].1 + "\n"@)
    }
}

/// The conversation, as the model is told of it.
pub open spec fn history_text(h: Seq<(Seq<char>, Seq<char>)>) -> Seq<char> {
    if h.len() == 0 {
        Seq::empty()
    } else {
        "\nCONVERSATION HISTORY:\n"@ + history_lines(h, h.len() as int)
    }
}

/// The text shown at the start.
pub open spec fn greeting() -> Seq<char> {
    "\n  +==================================+\n  |   Squirrel AIOS                  |\n  |   AI Sovereign Operating System  |\n  +==================================+\n\n  Type anything. Talk naturally.\n  I can create, read, search, and list files.\n\n> "@
}

/// The bus after raw bytes were sent under a type.
pub open spec fn raw_sent(bus: BusState, name: Seq<char>, intent_type: Seq<char>, payload: Seq<u8>) -> BusState {
    bus.sent_by(name, fresh_intent(intent_type, "primary-agent"@, payload))
}

/// The bus after a text was sent to the display.
pub open spec fn said(bus: BusState, name: Seq<char>, s: Seq<char>) -> BusState {
    raw_sent(bus, name, "display.print"@, encode_utf8(s))
}

/// The bus after an entry of the agent's state was published.
pub open spec fn published(bus: BusState, name: Seq<char>, key: Seq<char>, value: Seq<char>) -> BusState {
    bus.sent_by(
        name,
        fresh_intent(
            "glass-box.update"@,
            "primary-agent"@,
            GlassBoxUpdate::wire(GlassBoxUpdateView { module: "primary-agent"@, key, value }),
        ),
    )
}

/// The bus after the steps of a plan were sent.
pub open spec fn plan_sent(bus: BusState, name: Seq<char>, steps: Seq<(Seq<char>, Seq<u8>)>, n: int) -> BusState
    decreases n,
{
    if n <= 0 {
        bus
    } else {
        raw_sent(plan_sent(bus, name, steps, n - 1), name, steps[n - 1].0, steps[n - 1].1)
    }
}

/// What a turn needs from the caller, or that it is over.
pub enum Turn {
    /// Nothing was waiting that concerns the agent.
    Idle,
    /// The turn is over.
    Over,
    /// The model is to be asked; the listing of the store is needed.
    NeedFiles,
    /// The model has answered: these tools are to be run, and then the turn finished.
    RunTools { tools: Vec<ToolCall>, speech: String, response: InferenceResponse },
    /// The status is to be shown; the name of the backend is needed.
    NeedBackend,
}

/// What a turn holds.
pub enum TurnView {
    Idle,
    Over,
    NeedFiles,
    RunTools { tools: Seq<ToolView>, speech: Seq<char>, response: ResponseView },
    NeedBackend,
}

impl View for Turn {
    type V = TurnView;

    open spec fn view(&self) -> TurnView {
        match self {
            Turn::Idle => TurnView::Idle,
            Turn::Over => TurnView::Over,
            Turn::NeedFiles => TurnView::NeedFiles,
            Turn::RunTools { tools, speech, response } => TurnView::RunTools {
                tools: views(tools@),
                speech: speech@,
                response: response@,
            },
            Turn::NeedBackend => TurnView::NeedBackend,
        }
    }
}

/// An intent concerns the agent in a state.
pub open spec fn concerns(state: AgentState, t: Seq<char>) -> bool {
    ||| state == AgentState::WaitingForInput && t == "input.line"@
    ||| state == AgentState::WaitingForInference && starts_with(t, "inference.generate"@)
    ||| state == AgentState::WaitingForModule && (t == "settings.closed"@ || t == "display.clear.done"@)
    ||| t == "system.status"@
}

/// A line of input opens a module, so that the agent has to wait for it to close.
pub open spec fn opens_module(input: Seq<char>) -> bool {
    ||| same_word(trim(input), "settings"@)
    ||| contains(input, "configure"@)
    ||| contains(input, "api key"@)
}

/// The agent and the bus after a line of input, and how the turn goes on. What is no text
/// is dropped; an empty line gets a new prompt; a command is carried out; anything else
/// goes to the model.
pub open spec fn after_line(a: PrimaryView, bus: BusState, name: Seq<char>, payload: Seq<u8>) -> (
    PrimaryView,
    BusState,
    TurnView,
) {
    if !valid_utf8(payload) {
        (a, bus, TurnView::Over)
    } else {
        let input = trim(decode_utf8(payload));
        if input.len() == 0 {
            (a, said(bus, name, "> "@), TurnView::Over)
        } else {
            let shown = published(bus, name, "last_input"@, first_chars(input, MAX_SHOWN_INPUT as int));
            match plan_for(input) {
                Some(steps) => {
                    let done = plan_sent(shown, name, steps, steps.len() as int);
                    if opens_module(input) {
                        (
                            PrimaryView { state: AgentState::WaitingForModule, ..a },
                            published(done, name, "state"@, "module-active"@),
                            TurnView::Over,
                        )
                    } else {
                        (a, said(done, name, "> "@), TurnView::Over)
                    }
                },
                None => (PrimaryView { pending_input: input, ..a }, shown, TurnView::NeedFiles),
            }
        }
    }
}

/// The agent and the bus when the model's answer has been dealt with.
pub open spec fn back_to_input(a: PrimaryView, bus: BusState, name: Seq<char>) -> (PrimaryView, BusState, TurnView) {
    (
        PrimaryView { state: AgentState::WaitingForInput, ..a },
        published(bus, name, "state"@, "waiting"@),
        TurnView::Over,
    )
}

/// The agent and the bus after the model's answer, and how the turn goes on: what the
/// model says is shown before its tools are run; an error is shown instead.
pub open spec fn after_answer(a: PrimaryView, bus: BusState, name: Seq<char>, payload: Seq<u8>) -> (
    PrimaryView,
    BusState,
    TurnView,
) {
    match InferenceResponse::parsed(payload) {
        Some(response) => {
            let (tools, speech) = calls_in(response.text);
            (
                a,
                if speech.len() > 0 {
                    said(bus, name, speech + "\n"@)
                } else {
                    bus
                },
                TurnView::RunTools { tools, speech, response },
            )
        },
        None => match String::parsed(payload) {
            Some(e) => back_to_input(a, said(bus, name, "[Error: "@ + e + "]\n> "@), name),
            None => back_to_input(a, said(bus, name, "[Error: could not decode response]\n> "@), name),
        },
    }
}

/// The agent and the bus after an intent that concerns the agent, and how the turn goes
/// on.
pub open spec fn reaction(a: PrimaryView, bus: BusState, name: Seq<char>, intent: IntentView) -> (
    PrimaryView,
    BusState,
    TurnView,
) {
    let t = intent.semantic_type;
    if a.state == AgentState::WaitingForInput && t == "input.line"@ {
        after_line(a, bus, name, intent.payload)
    } else if a.state == AgentState::WaitingForInference && starts_with(t, "inference.generate"@) {
        after_answer(a, bus, name, intent.payload)
    } else if a.state == AgentState::WaitingForModule && (t == "settings.closed"@ || t == "display.clear.done"@) {
        back_to_input(a, said(bus, name, "\n> "@), name)
    } else {
        (a, bus, TurnView::NeedBackend)
    }
}

/// A turn of the agent: intents that do not concern it are dropped, up to the first one
/// that does.
pub open spec fn turn_of(a: PrimaryView, bus: BusState, name: Seq<char>) -> (PrimaryView, BusState, TurnView)
    decreases bus.inbox_of(name).len(),
{
    match bus.received(name) {
        None => (a, bus, TurnView::Idle),
        Some(intent) => {
            let rest = bus.after_recv(name);
            if concerns(a.state, intent.semantic_type) {
                reaction(a, rest, name, intent)
            } else if rest.inbox_of(name).len() < bus.inbox_of(name).len() {
                turn_of(a, rest, name)
            } else {
                (a, rest, TurnView::Idle)
            }
        },
    }
}

/// Receiving an intent makes the inbox shorter.
pub proof fn lemma_recv_shortens(bus: BusState, name: Seq<char>)
    requires
        bus.received(name) is Some,
    ensures
        bus.after_recv(name).inbox_of(name).len() < bus.inbox_of(name).len(),
{
    let inbox = bus.inbox_of(name);
    lemma_next_index(inbox);
    lemma_subscriber_named(bus.subscribers, name);
    let rest = inbox.remove(crate::intent_bus::bus::next_index(inbox));
    bus.lemma_with_inbox(name, rest, rest);
}

impl PrimaryAiAgent {
    pub fn new() -> (r: Self)
        ensures
            r@ == (PrimaryView {
                state: AgentState::WaitingForInput,
                greeted: false,
                history: Seq::empty(),
                pending_input: Seq::empty(),
            }),
    {
        broadcast use group_views;

        PrimaryAiAgent {
            state: AgentState::WaitingForInput,
            greeted: false,
            history: Vec::new(),
            pending_input: String::new(),
        }
    }

    pub fn name(&self) -> (r: &'static str)
        ensures
            r@ == "primary-agent"@,
    {
        "primary-agent"
    }

    /// The agent's reasoning goes before all other work.
    pub fn priority(&self) -> (r: CognitivePriority)
        ensures
            r == CognitivePriority::Reasoning,
    {
        CognitivePriority::Reasoning
    }

    /// Record a turn of conversation, and drop the oldest ones.
    pub fn push_history(&mut self, user: String, assistant: &str)
        ensures
            final(self)@ == (PrimaryView {
                history: recent(old(self)@.history.push(remembered((user@, assistant@)))),
                ..old(self)@
            }),
    {
        broadcast use group_views;

        self.history.push(ChatTurn { user, assistant: take_chars(assistant, MAX_ANSWER) });
        let ghost all = self@.history;
        let ghost start = self@;
        while self.history.len() > MAX_HISTORY
            invariant
                self@ == (PrimaryView { history: self@.history, ..start }),
                self@.history == views(self.history@),
                recent(self@.history) == recent(all),
            decreases self.history@.len(),
        {
            broadcast use group_views;

            let ghost before = self@.history;
            self.history.remove(0);
            assert(self@.history =~= before.skip(1));
            assert(recent(self@.history) =~= recent(before));
        }
        assert(recent(self@.history) == self@.history);
    }

    /// The conversation, as the model is told of it.
    pub fn format_history(&self) -> (r: String)
        ensures
            r@ == history_text(self@.history),
    {
        if self.history.len() == 0 {
            return String::new();
        }
        let mut out = text("\nCONVERSATION HISTORY:\n");
        let ghost head = out@;
        let mut i: usize = 0;
        assert(out@ =~= head + history_lines(self@.history, 0));
        while i < self.history.len()
            invariant
                i <= self.history@.len(),
                self@.history == views(self.history@),
                out@ == head + history_lines(self@.history, i as int),
            decreases self.history@.len() - i,
        {
            let mut line = text("User: ");
            line.push_str(self.history[i].user.as_str());
            line.push_str("\nAssistant: ");
            line.push_str(self.history[i].assistant.as_str());
            line.push_str("\n");
            out.push_str(line.as_str());
            i += 1;
            assert(out@ =~= head + history_lines(self@.history, i as int));
        }
        out
    }

    /// Send raw bytes under a type.
    fn send_raw(ctx: &AgentContext, bus: &mut IntentBus, intent_type: &str, payload: &[u8])
        ensures
            final(bus)@ == raw_sent(old(bus)@, ctx.bus@, intent_type@, payload@),
            old(bus)@.wf() ==> final(bus)@.wf(),
    {
        let intent = Intent::with_bytes(intent_type, "primary-agent", vstd::slice::slice_to_vec(payload));
        ctx.bus.send(bus, intent);
    }

    /// Send a text to the display.
    fn print(ctx: &AgentContext, bus: &mut IntentBus, s: &str)
        ensures
            final(bus)@ == said(old(bus)@, ctx.bus@, s@),
            old(bus)@.wf() ==> final(bus)@.wf(),
    {
        Self::send_raw(ctx, bus, "display.print", s.as_bytes());
    }

    /// Publish an entry of the agent's state.
    fn glass_box(ctx: &AgentContext, bus: &mut IntentBus, key: &str, value: &str)
        ensures
            final(bus)@ == published(old(bus)@, ctx.bus@, key@, value@),
            old(bus)@.wf() ==> final(bus)@.wf(),
    {
        let update = GlassBoxUpdate::new("primary-agent", key, value);
        ctx.bus.send(bus, Intent::request("glass-box.update", "primary-agent", &update));
    }

    /// Called when the agent is registered: greet the user, once.
    pub fn on_start(&mut self, ctx: &AgentContext, bus: &mut IntentBus)
        ensures
            final(self)@ == (PrimaryView { greeted: true, ..old(self)@ }),
            final(bus)@ == published(
                if old(self)@.greeted {
                    old(bus)@
                } else {
                    said(old(bus)@, ctx.bus@, greeting())
                },
                ctx.bus@,
                "state"@,
                "waiting"@,
            ),
            old(bus)@.wf() ==> final(bus)@.wf(),
    {
        if !self.greeted {
            Self::print(ctx, bus, "\n  +==================================+\n  |   Squirrel AIOS                  |\n  |   AI Sovereign Operating System  |\n  +==================================+\n\n  Type anything. Talk naturally.\n  I can create, read, search, and list files.\n\n> ");
            self.greeted = true;
        }
        Self::glass_box(ctx, bus, "state", "waiting");
    }

    /// Take the next intent that concerns the agent.
    pub fn poll(&mut self, ctx: &AgentContext, bus: &mut IntentBus) -> (r: Turn)
        ensures
            (final(self)@, final(bus)@, r@) == turn_of(old(self)@, old(bus)@, ctx.bus@),
            old(bus)@.wf() ==> final(bus)@.wf(),
    {
        let ghost whole = turn_of(self@, bus@, ctx.bus@);
        let ghost healthy = bus@.wf();
        loop
            invariant
                self@ == old(self)@,
                whole == turn_of(old(self)@, old(bus)@, ctx.bus@),
                turn_of(self@, bus@, ctx.bus@) == whole,
                healthy == old(bus)@.wf(),
                healthy ==> bus@.wf(),
            decreases bus@.inbox_of(ctx.bus@).len(),
        {
            let ghost before = bus@;
            match ctx.bus.try_recv(bus) {
                None => {
                    return Turn::Idle;
                },
                Some(intent) => {
                    proof {
                        lemma_recv_shortens(before, ctx.bus@);
                    }
                    if self.is_concerned(&intent) {
                        return self.react(ctx, bus, &intent);
                    }
                },
            }
        }
    }

    /// Whether an intent concerns the agent now.
    fn is_concerned(&self, intent: &Intent) -> (r: bool)
        ensures
            r == concerns(self@.state, intent@.semantic_type),
    {
        let t = intent.semantic_type.as_str();
        match self.state {
            AgentState::WaitingForInput => text_eq(t, "input.line") || text_eq(t, "system.status"),
            AgentState::WaitingForInference => begins(t, "inference.generate") || text_eq(t, "system.status"),
            AgentState::WaitingForModule => text_eq(t, "settings.closed") || text_eq(t, "display.clear.done") || text_eq(
                t,
                "system.status",
            ),
        }
    }

    /// React to an intent that concerns the agent.
    fn react(&mut self, ctx: &AgentContext, bus: &mut IntentBus, intent: &Intent) -> (r: Turn)
        ensures
            (final(self)@, final(bus)@, r@) == reaction(old(self)@, old(bus)@, ctx.bus@, intent@),
            old(bus)@.wf() ==> final(bus)@.wf(),
    {
        let t = intent.semantic_type.as_str();
        match self.state {
            AgentState::WaitingForInput => {
                if text_eq(t, "input.line") {
                    return self.on_line(ctx, bus, intent);
                }
            },
            AgentState::WaitingForInference => {
                if begins(t, "inference.generate") {
                    return self.on_answer(ctx, bus, intent);
                }
            },
            AgentState::WaitingForModule => {
                if text_eq(t, "settings.closed") || text_eq(t, "display.clear.done") {
                    Self::print(ctx, bus, "\n> ");
                    self.state = AgentState::WaitingForInput;
                    Self::glass_box(ctx, bus, "state", "waiting");
                    return Turn::Over;
                }
            },
        }
        Turn::NeedBackend
    }

    /// React to a line of input.
    fn on_line(&mut self, ctx: &AgentContext, bus: &mut IntentBus, intent: &Intent) -> (r: Turn)
        ensures
            (final(self)@, final(bus)@, r@) == after_line(old(self)@, old(bus)@, ctx.bus@, intent@.payload),
            old(bus)@.wf() ==> final(bus)@.wf(),
    {
        let line = match utf8_text(intent.payload.as_slice()) {
            Some(s) => trimmed(s.as_str()),
            None => {
                return Turn::Over;
            },
        };
        let input = line.as_str();
        if input.is_empty() {
            Self::print(ctx, bus, "> ");
            return Turn::Over;
        }
        Self::glass_box(ctx, bus, "last_input", take_chars(input, MAX_SHOWN_INPUT).as_str());
        match try_pattern_match(input) {
            Some(plan) => {
                let ghost shown = bus@;
                let ghost healthy = bus@.wf();
                let mut i: usize = 0;
                while i < plan.steps.len()
                    invariant
                        i <= plan.steps@.len(),
                        plan@ == views(plan.steps@),
                        bus@ == plan_sent(shown, ctx.bus@, plan@, i as int),
                        healthy ==> bus@.wf(),
                    decreases plan.steps@.len() - i,
                {
                    assert(plan@[i as int] == plan.steps@[i as int]@);
                    Self::send_raw(
                        ctx,
                        bus,
                        plan.steps[i].intent_type.as_str(),
                        plan.steps[i].payload.as_slice(),
                    );
                    i += 1;
                }
                if eq_ignore_case(trimmed(input).as_str(), "settings") || holds(input, "configure") || holds(
                    input,
                    "api key",
                ) {
                    self.state = AgentState::WaitingForModule;
                    Self::glass_box(ctx, bus, "state", "module-active");
                } else {
                    Self::print(ctx, bus, "> ");
                }
                Turn::Over
            },
            None => {
                self.pending_input = text(input);
                Turn::NeedFiles
            },
        }
    }

    /// React to the model's answer.
    fn on_answer(&mut self, ctx: &AgentContext, bus: &mut IntentBus, intent: &Intent) -> (r: Turn)
        ensures
            (final(self)@, final(bus)@, r@) == after_answer(old(self)@, old(bus)@, ctx.bus@, intent@.payload),
            old(bus)@.wf() ==> final(bus)@.wf(),
    {
        match intent.decode::<InferenceResponse>() {
            Ok(response) => {
                let (tools, speech) = parse_tool_calls(response.text.as_str());
                if !speech.as_str().is_empty() {
                    let mut msg = speech.clone();
                    msg.push_str("\n");
                    Self::print(ctx, bus, msg.as_str());
                }
                Turn::RunTools { tools, speech, response }
            },
            Err(_) => {
                match intent.decode::<String>() {
                    Ok(e) => {
                        let mut msg = text("[Error: ");
                        msg.push_str(e.as_str());
                        msg.push_str("]\n> ");
                        Self::print(ctx, bus, msg.as_str());
                    },
                    Err(_) => {
                        Self::print(ctx, bus, "[Error: could not decode response]\n> ");
                    },
                }
                self.state = AgentState::WaitingForInput;
                Self::glass_box(ctx, bus, "state", "waiting");
                Turn::Over
            },
        }
    }

    /// Ask the model about the pending input, with the files that the store holds.
    pub fn ask(&mut self, ctx: &AgentContext, bus: &mut IntentBus, files: Option<&Vec<StoredFile>>)
        ensures
            final(self)@ == (PrimaryView { state: AgentState::WaitingForInference, ..old(self)@ }),
            final(bus)@ == said(
                published(
                    old(bus)@.sent_by(
                        ctx.bus@,
                        fresh_intent(
                            "inference.generate"@,
                            "primary-agent"@,
                            InferenceRequest::wire(
                                request_for(
                                    SYSTEM_PROMPT@,
                                    opt_files(files),
                                    history_text(old(self)@.history),
                                    old(self)@.pending_input,
                                ),
                            ),
                        ),
                    ),
                    ctx.bus@,
                    "state"@,
                    "thinking"@,
                ),
                ctx.bus@,
                "[thinking...]\n"@,
            ),
            old(bus)@.wf() ==> final(bus)@.wf(),
    {
        let history = self.format_history();
        let request = build_inference_request(self.pending_input.as_str(), history.as_str(), files);
        ctx.bus.send(bus, Intent::request("inference.generate", "primary-agent", &request));
        self.state = AgentState::WaitingForInference;
        Self::glass_box(ctx, bus, "state", "thinking");
        Self::print(ctx, bus, "[thinking...]\n");
    }

    /// Tell the user what became of a tool call.
    pub fn execute_tool_call(&self, ctx: &AgentContext, bus: &mut IntentBus, tool: &ToolCall, reply: &StoreReply)
        requires
            reply_fits(tool@, reply@),
        ensures
            final(bus)@ == said(
                if reply@ is Unavailable {
                    old(bus)@
                } else {
                    published(old(bus)@, ctx.bus@, "state"@, tool_state(tool@))
                },
                ctx.bus@,
                tool_message(tool@, reply@),
            ),
            old(bus)@.wf() ==> final(bus)@.wf(),
    {
        match reply {
            StoreReply::Unavailable => {},
            _ => {
                Self::glass_box(ctx, bus, "state", tool_state_text(tool));
            },
        }
        Self::print(ctx, bus, tool_reply_text(tool, reply).as_str());
    }

    /// Finish a turn whose tools have been run: record it, and ask for more input.
    pub fn finish_answer(&mut self, ctx: &AgentContext, bus: &mut IntentBus, speech: &str, response: &InferenceResponse)
        ensures
            final(self)@ == (PrimaryView {
                state: AgentState::WaitingForInput,
                greeted: old(self)@.greeted,
                history: recent(
                    old(self)@.history.push((old(self)@.pending_input, first_chars(speech@, MAX_ANSWER as int))),
                ),
                pending_input: Seq::empty(),
            }),
            final(bus)@ == published(
                said(
                    old(bus)@,
                    ctx.bus@,
                    "["@ + response@.backend_used + " in "@ + decimal(response@.latency_ms as nat) + "ms]\n> "@,
                ),
                ctx.bus@,
                "state"@,
                "waiting"@,
            ),
            old(bus)@.wf() ==> final(bus)@.wf(),
    {
        let pending = self.pending_input.clone();
        self.pending_input = String::new();
        self.push_history(pending, speech);
        let mut stats = text("[");
        stats.push_str(response.backend_used.as_str());
        stats.push_str(" in ");
        stats.push_str(decimal_text(response.latency_ms).as_str());
        stats.push_str("ms]\n> ");
        Self::print(ctx, bus, stats.as_str());
        self.state = AgentState::WaitingForInput;
        Self::glass_box(ctx, bus, "state", "waiting");
    }

    /// Show the status.
    pub fn show_status(&self, ctx: &AgentContext, bus: &mut IntentBus, backend: &str)
        ensures
            final(bus)@ == said(
                old(bus)@,
                ctx.bus@,
                "Squirrel AIOS Status:\n  Backend: "@ + backend@ + "\n  Tick: "@ + decimal(ctx.tick as nat) + "\n> "@,
            ),
            old(bus)@.wf() ==> final(bus)@.wf(),
    {
        let mut s = text("Squirrel AIOS Status:\n  Backend: ");
        s.push_str(backend);
        s.push_str("\n  Tick: ");
        s.push_str(decimal_text(ctx.tick).as_str());
        s.push_str("\n> ");
        Self::print(ctx, bus, s.as_str());
    }
}

/// Of a conversation at most six turns are kept, the latest ones, in order.
pub proof fn law_history_is_bounded(h: Seq<(Seq<char>, Seq<char>)>, turn: (Seq<char>, Seq<char>))
    ensures
        recent(h.push(turn)).len() <= MAX_HISTORY,
        recent(h.push(turn)).last() == turn,
        h.len() < MAX_HISTORY ==> recent(h.push(turn)) == h.push(turn),
{
}

/// While the agent waits for the model it takes no input: a line that arrives meanwhile is
/// dropped, and does not change what the agent remembers.
pub proof fn law_no_input_while_thinking(a: PrimaryView, bus: BusState, name: Seq<char>)
    requires
        a.state == AgentState::WaitingForInference,
        bus.received(name) is Some,
        bus.received(name)->0.semantic_type == "input.line"@,
    ensures
        turn_of(a, bus, name) == turn_of(a, bus.after_recv(name), name),
{
    lemma_recv_shortens(bus, name);
    reveal_strlit("input.line");
    reveal_strlit("inference.generate");
    reveal_strlit("system.status");
    let t = "input.line"@;
    assert(t.len() == 10 && "inference.generate"@.len() == 18 && "system.status"@.len() == 13);
}

/// A command is carried out without the model: the turn is over at once.
pub proof fn law_commands_need_no_model(a: PrimaryView, bus: BusState, name: Seq<char>, payload: Seq<u8>)
    requires
        valid_utf8(payload),
        plan_for(trim(decode_utf8(payload))) is Some,
    ensures
        after_line(a, bus, name, payload).2 is Over,
        after_line(a, bus, name, payload).0.history == a.history,
{
}

} // verus!
