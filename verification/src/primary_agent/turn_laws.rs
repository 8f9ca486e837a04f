//! What holds of commands, of what the model is told, and of a turn as a whole.

use vstd::prelude::*;
use vstd::utf8::*;

use crate::inference::backend::InferenceResponse;
use crate::intent_bus::bus::{any_matches, BusState};
use crate::intent_bus::payloads::Payload;
use crate::primary_agent::agent::{
    after_answer, after_line, lemma_recv_shortens, plan_sent, turn_of, AgentState, PrimaryView, TurnView,
};
use crate::primary_agent::planner::{
    asks_settings, calls_in, context_line, context_lines, files_context, help_text, plan_for, prompt_for, request_for, FileView,
};
use crate::text::{contains, decimal, find, is_space, lemma_find_from, lower, lower_char, occurs_at, starts_with, trim};
use crate::text_laws::{
    blank, law_inserted_is_found, law_part_is_found, law_prefix, law_tight_stays, law_trim, law_trim_parts, tight,
};

verus! {

// ---------------------------------------------------------------------------
// Commands
// ---------------------------------------------------------------------------

/// A text holds nothing that is longer than itself.
proof fn lemma_too_long(s: Seq<char>, pat: Seq<char>)
    requires
        s.len() < pat.len(),
    ensures
        !contains(s, pat),
{
}

/// A word of six letters or fewer holds no phrase that asks for the settings.
#[verifier::rlimit(40)]
proof fn lemma_short_word(s: Seq<char>)
    requires
        s.len() <= 6,
    ensures
        !asks_settings(s),
{
    reveal_strlit("settings");
    reveal_strlit("configure");
    reveal_strlit("change model");
    reveal_strlit("api key");
    reveal_strlit("switch to openai");
    reveal_strlit("switch to anthropic");
    reveal_strlit("switch to gemini");
    reveal_strlit("use local model");
    let l = lower(s);
    assert(l.len() == s.len());
    lemma_too_long(l, lower("configure"@));
    lemma_too_long(l, lower("change model"@));
    lemma_too_long(l, lower("api key"@));
    lemma_too_long(l, lower("switch to openai"@));
    lemma_too_long(l, lower("switch to anthropic"@));
    lemma_too_long(l, lower("switch to gemini"@));
    lemma_too_long(l, lower("use local model"@));
    assert(lower("settings"@).len() == 8);
}

/// The command words are already in lower case, and differ.
#[verifier::rlimit(40)]
proof fn lemma_words()
    ensures
        lower("settings"@) == "settings"@,
        lower("help"@) == "help"@,
        lower("clear"@) == "clear"@,
        lower("cls"@) == "cls"@,
        lower("status"@) == "status"@,
        lower("ps"@) == "ps"@,
        lower("agents"@) == "agents"@,
        "help"@.len() == 4,
        "clear"@.len() == 5,
        "cls"@.len() == 3,
        "status"@.len() == 6,
        "ps"@.len() == 2,
        "agents"@.len() == 6,
        "?"@.len() == 1,
{
    reveal_strlit("settings");
    reveal_strlit("help");
    reveal_strlit("clear");
    reveal_strlit("cls");
    reveal_strlit("status");
    reveal_strlit("ps");
    reveal_strlit("agents");
    reveal_strlit("?");
    assert(lower("settings"@) =~= "settings"@);
    assert(lower("help"@) =~= "help"@);
    assert(lower("clear"@) =~= "clear"@);
    assert(lower("cls"@) =~= "cls"@);
    assert(lower("status"@) =~= "status"@);
    assert(lower("ps"@) =~= "ps"@);
    assert(lower("agents"@) =~= "agents"@);
}

/// A command word, in any case and with white space around, is carried out by one intent:
/// the settings open, the help is printed, the screen is cleared, the status is asked for.
pub proof fn law_commands(a: Seq<char>, word: Seq<char>, b: Seq<char>)
    requires
        blank(a),
        blank(b),
        tight(word),
    ensures
        lower(word) == "settings"@ ==> plan_for(a + word + b) == Some(seq![("settings.open"@, encode_utf8("{}"@))]),
        lower(word) == "help"@ || word == "?"@ ==> plan_for(a + word + b) == Some(
            seq![("display.print"@, encode_utf8(help_text()))],
        ),
        lower(word) == "clear"@ || lower(word) == "cls"@ ==> plan_for(a + word + b) == Some(
            seq![("display.clear"@, encode_utf8(""@))],
        ),
        lower(word) == "status"@ || lower(word) == "ps"@ || lower(word) == "agents"@ ==> plan_for(a + word + b)
            == Some(seq![("system.status"@, encode_utf8(""@))]),
{
    law_trim(a, word, b);
    lemma_words();
    assert(lower(word).len() == word.len());
    if word.len() <= 6 {
        lemma_short_word(word);
    }
    if lower(word) == "clear"@ {
        assert("clear"@.len() != "help"@.len());
    }
}

/// What stands in a text between other words still stands there when the text is trimmed.
proof fn lemma_kept_by_trim(x: Seq<char>, p: Seq<char>, y: Seq<char>)
    requires
        p.len() > 0,
        tight(p),
    ensures
        contains(lower(trim(x + p + y)), lower(p)),
{
    let s = x + p + y;
    let parts = law_trim_parts(s);
    let t = trim(s);
    let whole = parts.0 + t + parts.1;
    let n = x.len() as int;
    let m = parts.0.len() as int;
    assert(s[n] == p[0]);
    assert(s[n + p.len() - 1] == p.last());
    assert(whole == s);
    if n < m {
        assert(whole[n] == parts.0[n]);
        assert(is_space(parts.0[n]));
    }
    if n + p.len() > m + t.len() {
        let k = n + p.len() - 1;
        assert(whole[k] == parts.1[k - m - t.len()]);
        assert(is_space(parts.1[k - m - t.len()]));
    }
    let l = lower(t);
    let at = n - m;
    assert forall|k: int| 0 <= k < p.len() implies #[trigger] l.subrange(at, at + p.len())[k] == lower(p)[k] by {
        assert(l[at + k] == lower_char(t[at + k]));
        assert(whole[n + k] == t[at + k]);
        assert(s[n + k] == p[k]);
    }
    assert(l.subrange(at, at + p.len()) =~= lower(p));
    lemma_find_from(l, lower(p), 0);
    assert(occurs_at(l, lower(p), at));
}

/// A phrase that asks for another model or for a key opens the settings, in any case and
/// wherever in the input it stands.
#[verifier::rlimit(40)]
pub proof fn law_settings_phrases(x: Seq<char>, phrase: Seq<char>, y: Seq<char>)
    requires
        tight(phrase),
        lower(phrase) == "configure"@ || lower(phrase) == "change model"@ || lower(phrase) == "api key"@ || lower(
            phrase,
        ) == "switch to openai"@ || lower(phrase) == "switch to anthropic"@ || lower(phrase) == "switch to gemini"@
            || lower(phrase) == "use local model"@,
    ensures
        plan_for(x + phrase + y) == Some(seq![("settings.open"@, encode_utf8("{}"@))]),
{
    reveal_strlit("configure");
    reveal_strlit("change model");
    reveal_strlit("api key");
    reveal_strlit("switch to openai");
    reveal_strlit("switch to anthropic");
    reveal_strlit("switch to gemini");
    reveal_strlit("use local model");
    assert(lower("configure"@) =~= "configure"@);
    assert(lower("change model"@) =~= "change model"@);
    assert(lower("api key"@) =~= "api key"@);
    assert(lower("switch to openai"@) =~= "switch to openai"@);
    assert(lower("switch to anthropic"@) =~= "switch to anthropic"@);
    assert(lower("switch to gemini"@) =~= "switch to gemini"@);
    assert(lower("use local model"@) =~= "use local model"@);
    assert(lower(phrase).len() == phrase.len());
    lemma_kept_by_trim(x, phrase, y);
}

/// Everything else goes to the model: an input that holds neither of the phrases and is
/// none of the command words has no plan.
#[verifier::rlimit(40)]
pub proof fn law_talk_goes_to_the_model(a: Seq<char>, m: Seq<char>, b: Seq<char>)
    requires
        blank(a),
        blank(b),
        tight(m),
        !contains(lower(m), "configure"@),
        !contains(lower(m), "change model"@),
        !contains(lower(m), "api key"@),
        !contains(lower(m), "switch to "@),
        !contains(lower(m), "use local model"@),
        lower(m) != "settings"@,
        lower(m) != "help"@,
        m != "?"@,
        lower(m) != "clear"@,
        lower(m) != "cls"@,
        lower(m) != "status"@,
        lower(m) != "ps"@,
        lower(m) != "agents"@,
    ensures
        plan_for(a + m + b) is None,
{
    law_trim(a, m, b);
    lemma_words();
    reveal_strlit("configure");
    reveal_strlit("change model");
    reveal_strlit("api key");
    reveal_strlit("switch to ");
    reveal_strlit("switch to openai");
    reveal_strlit("switch to anthropic");
    reveal_strlit("switch to gemini");
    reveal_strlit("use local model");
    assert(lower("configure"@) =~= "configure"@);
    assert(lower("change model"@) =~= "change model"@);
    assert(lower("api key"@) =~= "api key"@);
    assert(lower("use local model"@) =~= "use local model"@);
    assert(lower("switch to openai"@) =~= "switch to openai"@);
    assert(lower("switch to anthropic"@) =~= "switch to anthropic"@);
    assert(lower("switch to gemini"@) =~= "switch to gemini"@);
    let w = "switch to "@;
    assert("switch to openai"@.take(10) =~= w);
    assert("switch to anthropic"@.take(10) =~= w);
    assert("switch to gemini"@.take(10) =~= w);
    lemma_longer(lower(m), "switch to openai"@);
    lemma_longer(lower(m), "switch to anthropic"@);
    lemma_longer(lower(m), "switch to gemini"@);
}

/// What does not hold the beginning of a phrase does not hold the phrase.
proof fn lemma_longer(s: Seq<char>, phrase: Seq<char>)
    requires
        phrase.len() >= 10,
        !contains(s, phrase.take(10)),
    ensures
        !contains(s, phrase),
{
    if contains(s, phrase) {
        lemma_find_from(s, phrase, 0);
        let i = find(s, phrase)->0;
        lemma_find_from(s, phrase.take(10), 0);
        assert(s.subrange(i, i + 10) =~= s.subrange(i, i + phrase.len()).take(10));
        assert(occurs_at(s, phrase.take(10), i));
    }
}

// ---------------------------------------------------------------------------
// What the model is told
// ---------------------------------------------------------------------------

proof fn lemma_context_line(files: Seq<FileView>, n: int, i: int)
    requires
        0 <= i < n <= files.len(),
    ensures
        contains(context_lines(files, n), context_line(files[i])),
    decreases n,
{
    let e = Seq::<char>::empty();
    let line = context_line(files[n - 1]);
    let before = context_lines(files, n - 1);
    if i == n - 1 {
        law_inserted_is_found(before, line, e);
        assert(before + line + e =~= context_lines(files, n));
    } else {
        lemma_context_line(files, n - 1, i);
        law_part_is_found(e, before, line, context_line(files[i]));
        assert(e + before + line =~= context_lines(files, n));
    }
}

/// The listing names every file, with its size, and with its tags where it has some.
pub proof fn law_files_are_listed(files: Seq<FileView>, i: int)
    requires
        0 <= i < files.len(),
    ensures
        ({
            let f = files[i];
            let listing = files_context(Some(files));
            &&& f.name.len() > 0 && f.tags is None ==> contains(
                listing,
                "  "@ + f.name + " ("@ + decimal(f.size as nat) + " bytes)\n"@,
            )
            &&& f.name.len() > 0 && f.tags is Some ==> contains(
                listing,
                "  "@ + f.name + " ("@ + decimal(f.size as nat) + " bytes) ["@ + f.tags->0 + "]\n"@,
            )
            &&& f.name.len() == 0 && f.tags is None ==> contains(
                listing,
                "  "@ + "<unnamed>"@ + " ("@ + decimal(f.size as nat) + " bytes)\n"@,
            )
        }),
{
    let e = Seq::<char>::empty();
    let n = files.len() as int;
    lemma_context_line(files, n, i);
    let head = "\nFILES IN SVFS (use exact names in tool tags):\n"@;
    law_part_is_found(head, context_lines(files, n), e, context_line(files[i]));
    assert(head + context_lines(files, n) + e =~= files_context(Some(files)));
}

/// Without a store the listing says so, and with an empty one it says that.
pub proof fn law_no_files_are_listed()
    ensures
        contains(files_context(None), "not initialized"@),
        contains(files_context(Some(Seq::empty())), "empty"@),
{
    reveal_strlit("\nFILES IN SVFS: (not initialized)");
    reveal_strlit("\nFILES IN SVFS: (empty)");
    reveal_strlit("not initialized");
    reveal_strlit("empty");
    let a = "\nFILES IN SVFS: (not initialized)"@;
    let b = "\nFILES IN SVFS: (empty)"@;
    law_inserted_is_found(a.take(17), "not initialized"@, a.skip(32));
    assert(a.take(17) + "not initialized"@ + a.skip(32) =~= a);
    law_inserted_is_found(b.take(17), "empty"@, b.skip(22));
    assert(b.take(17) + "empty"@ + b.skip(22) =~= b);
}

/// The prompt begins with what the model is told of the system, then come the listing and
/// the conversation, and it ends with the input and the model's turn to speak.
pub proof fn law_prompt_tells(
    system: Seq<char>,
    files: Option<Seq<FileView>>,
    history: Seq<char>,
    input: Seq<char>,
)
    ensures
        ({
            let prompt = prompt_for(system, files, history, input);
            let end = "\nUser: "@ + input + "\nAssistant:"@;
            &&& starts_with(prompt, system)
            &&& contains(prompt, files_context(files) + history)
            &&& prompt.len() == system.len() + 1 + files_context(files).len() + history.len() + end.len()
            &&& prompt.skip(prompt.len() - end.len()) == end
        }),
{
    reveal_strlit("\n");
    let prompt = prompt_for(system, files, history, input);
    let end = "\nUser: "@ + input + "\nAssistant:"@;
    let middle = files_context(files) + history;
    assert(prompt =~= system + ("\n"@ + middle + end));
    law_prefix(system, "\n"@ + middle + end);
    assert(prompt =~= (system + "\n"@) + middle + end);
    law_inserted_is_found(system + "\n"@, middle, end);
    assert(prompt.skip(prompt.len() - end.len()) =~= end);
}

/// An answer may take four hundred tokens, and ends where the user would speak.
pub proof fn law_request_limits(
    system: Seq<char>,
    files: Option<Seq<FileView>>,
    history: Seq<char>,
    input: Seq<char>,
)
    ensures
        ({
            let r = request_for(system, files, history, input);
            &&& r.prompt == prompt_for(system, files, history, input)
            &&& r.max_tokens == 400
            &&& r.temperature == 0x3f33_3333
            &&& r.stop_sequences.contains("User:"@)
            &&& r.stop_sequences.contains("\n\nUser"@)
            &&& r.stop_sequences.len() == 2
        }),
{
    let r = request_for(system, files, history, input);
    assert(r.stop_sequences[0] == "User:"@);
    assert(r.stop_sequences[1] == "\n\nUser"@);
}

// ---------------------------------------------------------------------------
// Turns
// ---------------------------------------------------------------------------

/// A subscriber that listens to what is displayed, and not to what is published.
pub open spec fn watches(bus: BusState, i: int) -> bool {
    &&& 0 <= i < bus.subscribers.len()
    &&& any_matches("display.print"@, bus.subscribers[i].subscriptions)
    &&& !any_matches("glass-box.update"@, bus.subscribers[i].subscriptions)
}

/// The text that a subscriber was sent last.
pub open spec fn last_shown(bus: BusState, i: int) -> Seq<u8> {
    bus.subscribers[i].inbox.last().payload
}

/// A line of input is taken without the white space around it: an empty one gets a new
/// prompt; one that is no command is handed to the model as the pending input.
pub proof fn law_line_is_taken(
    a: PrimaryView,
    bus: BusState,
    name: Seq<char>,
    x: Seq<char>,
    m: Seq<char>,
    y: Seq<char>,
    i: int,
)
    requires
        blank(x),
        blank(y),
        tight(m),
        watches(bus, i),
    ensures
        ({
            let after = after_line(a, bus, name, encode_utf8(x + m + y));
            &&& m.len() == 0 ==> after.0 == a && after.2 is Over && last_shown(after.1, i) == encode_utf8("> "@)
            &&& m.len() > 0 && plan_for(m) is None ==> {
                &&& after.2 is NeedFiles
                &&& after.0.pending_input == m
                &&& after.0.state == a.state
                &&& after.0.history == a.history
            }
        }),
{
    let s = x + m + y;
    law_trim(x, m, y);
    encode_utf8_valid_utf8(s);
    encode_utf8_decode_utf8(s);
}

/// What is no text is dropped.
pub proof fn law_no_text_is_dropped(a: PrimaryView, bus: BusState, name: Seq<char>, payload: Seq<u8>)
    requires
        !valid_utf8(payload),
    ensures
        after_line(a, bus, name, payload).0 == a,
        after_line(a, bus, name, payload).1 == bus,
        after_line(a, bus, name, payload).2 is Over,
{
}

/// After the help a new prompt is shown, and the agent waits for the next line; after the
/// settings were opened it waits for them to close.
pub proof fn law_commands_are_carried_out(
    a: PrimaryView,
    bus: BusState,
    name: Seq<char>,
    x: Seq<char>,
    word: Seq<char>,
    y: Seq<char>,
    i: int,
)
    requires
        blank(x),
        blank(y),
        tight(word),
        watches(bus, i),
        lower(word) == "help"@ || lower(word) == "settings"@,
    ensures
        ({
            let after = after_line(a, bus, name, encode_utf8(x + word + y));
            &&& after.2 is Over
            &&& lower(word) == "help"@ ==> after.0 == a && last_shown(after.1, i) == encode_utf8("> "@)
            &&& lower(word) == "settings"@ ==> after.0.state == AgentState::WaitingForModule
        }),
{
    let s = x + word + y;
    let e = Seq::<char>::empty();
    law_trim(x, word, y);
    law_tight_stays(word);
    encode_utf8_valid_utf8(s);
    encode_utf8_decode_utf8(s);
    law_commands(e, word, e);
    assert(e + word + e =~= word);
    lemma_words();
    assert(lower(word).len() == word.len());
    reveal_strlit("settings");
    reveal_strlit("configure");
    reveal_strlit("api key");
    reveal_with_fuel(plan_sent, 2);
    assert("settings"@.len() == 8);
    if lower(word) == "help"@ {
        lemma_too_long(word, "configure"@);
        lemma_too_long(word, "api key"@);
    }
}

/// What the model says is shown, and the tools that it calls are run; an error is shown
/// instead, and the agent waits for input again.
pub proof fn law_answer_is_shown(a: PrimaryView, bus: BusState, name: Seq<char>, payload: Seq<u8>, i: int)
    requires
        watches(bus, i),
    ensures
        ({
            let after = after_answer(a, bus, name, payload);
            &&& InferenceResponse::parsed(payload) matches Some(response) ==> {
                &&& after.0 == a
                &&& after.2 matches TurnView::RunTools { tools, speech, response: told } && tools == calls_in(
                    response.text,
                ).0 && speech == calls_in(response.text).1 && told == response
                &&& calls_in(response.text).1.len() > 0 ==> last_shown(after.1, i) == encode_utf8(
                    calls_in(response.text).1 + "\n"@,
                )
                &&& calls_in(response.text).1.len() == 0 ==> after.1 == bus
            }
            &&& InferenceResponse::parsed(payload) is None ==> {
                &&& after.2 is Over
                &&& after.0.state == AgentState::WaitingForInput
                &&& after.0.history == a.history
                &&& String::parsed(payload) matches Some(e) ==> last_shown(after.1, i) == encode_utf8(
                    "[Error: "@ + e + "]\n> "@,
                )
                &&& String::parsed(payload) is None ==> last_shown(after.1, i) == encode_utf8(
                    "[Error: could not decode response]\n> "@,
                )
            }
        }),
{
}

/// The agent reacts to a line when it waits for one, to the model when it waits for an
/// answer, and to the end of a module when it waits for that.
pub proof fn law_turn_follows_the_state(a: PrimaryView, bus: BusState, name: Seq<char>, tail: Seq<char>, i: int)
    requires
        bus.received(name) is Some,
        watches(bus.after_recv(name), i),
    ensures
        ({
            let intent = bus.received(name)->0;
            let t = intent.semantic_type;
            let rest = bus.after_recv(name);
            &&& a.state == AgentState::WaitingForInput && t == "input.line"@ ==> turn_of(a, bus, name) == after_line(
                a,
                rest,
                name,
                intent.payload,
            )
            &&& a.state == AgentState::WaitingForInference && t == "inference.generate"@ + tail ==> turn_of(
                a,
                bus,
                name,
            ) == after_answer(a, rest, name, intent.payload)
            &&& a.state == AgentState::WaitingForModule && (t == "settings.closed"@ || t == "display.clear.done"@)
                ==> {
                let after = turn_of(a, bus, name);
                &&& after.2 is Over
                &&& after.0.state == AgentState::WaitingForInput
                &&& last_shown(after.1, i) == encode_utf8("\n> "@)
            }
            &&& t == "system.status"@ ==> turn_of(a, bus, name).2 is NeedBackend && turn_of(a, bus, name).0 == a
        }),
{
    law_prefix("inference.generate"@, tail);
    lemma_types_differ();
}

/// What does not concern the agent in its state is dropped, and the turn goes on with the
/// next intent.
pub proof fn law_other_intents_are_dropped(a: PrimaryView, bus: BusState, name: Seq<char>)
    requires
        bus.received(name) is Some,
        ({
            let t = bus.received(name)->0.semantic_type;
            &&& t != "system.status"@
            &&& a.state == AgentState::WaitingForInput ==> t != "input.line"@
            &&& a.state == AgentState::WaitingForInference ==> !starts_with(t, "inference.generate"@)
            &&& a.state == AgentState::WaitingForModule ==> t != "settings.closed"@ && t != "display.clear.done"@
        }),
    ensures
        turn_of(a, bus, name) == turn_of(a, bus.after_recv(name), name),
{
    lemma_recv_shortens(bus, name);
}

/// The status is neither a line nor an answer nor the end of a module.
proof fn lemma_types_differ()
    ensures
        "system.status"@ != "input.line"@,
        !starts_with("system.status"@, "inference.generate"@),
        "system.status"@ != "settings.closed"@,
        "system.status"@ != "display.clear.done"@,
{
    reveal_strlit("system.status");
    reveal_strlit("input.line");
    reveal_strlit("inference.generate");
    reveal_strlit("settings.closed");
    reveal_strlit("display.clear.done");
    assert("system.status"@.len() == 13);
    assert("input.line"@.len() == 10);
    assert("settings.closed"@.len() == 15);
    assert("display.clear.done"@.len() == 18);
}

} // verus!
