use squirrel::inference::backend::{FinishReason, InferenceRequest, InferenceResponse};
use squirrel::intent_bus::bus::{BusConnection, IntentBus};
use squirrel::intent_bus::intent::Intent;
use squirrel::intent_bus::payloads::GlassBoxUpdate;
use squirrel::primary_agent::agent::{PrimaryAiAgent, Turn};
use squirrel::primary_agent::planner::{
    build_files_context, build_inference_request, contains_ignore_case, display_name, eq_ignore_case, parse_tool_calls,
    try_pattern_match, StoredFile, ToolCall, SYSTEM_PROMPT,
};
use squirrel::primary_agent::tools::{
    parse_stored_tags, tool_reply_text, tool_request, tool_state_text, StoreReply, StoreRequest,
};
use squirrel::sart::agent::AgentContext;

fn s(t: &str) -> String {
    String::from(t)
}

fn kinds(calls: &[ToolCall]) -> Vec<String> {
    calls
        .iter()
        .map(|c| match c {
            ToolCall::CreateFile { name, tags, description, content } => {
                format!("create {}|{}|{}|{}", name, tags, description, content)
            }
            ToolCall::ReadFile { name } => format!("read {}", name),
            ToolCall::DeleteFile { name } => format!("delete {}", name),
            ToolCall::ListFiles => s("list"),
            ToolCall::SearchFiles { query } => format!("search {}", query),
        })
        .collect()
}

#[test]
fn plain_answers_have_no_tools() {
    let (tools, speech) = parse_tool_calls("  Hello there.  ");
    assert!(tools.is_empty());
    assert_eq!(speech, "Hello there.");
}

#[test]
fn tool_tags_are_taken_out() {
    let (tools, speech) = parse_tool_calls("Sure [READ_FILE: notes ] and [LIST_FILES] and [SEARCH_FILES:a b].");
    assert_eq!(kinds(&tools), vec!["read notes", "search a b", "list"]);
    assert!(!speech.contains('['));
    let (tools, _) = parse_tool_calls("[CREATE_FILE:poem|x,y|A poem:Roses are red]");
    assert_eq!(kinds(&tools), vec!["create poem|x,y|A poem|Roses are red"]);
    let (tools, speech) = parse_tool_calls(
        "Three: [CREATE_FILE:a|x|A:one] [CREATE_FILE:b:two [2]] [CREATE_FILE:c|y,z|C:three] done",
    );
    assert_eq!(kinds(&tools), vec!["create a|x|A|one", "create b|||two [2]", "create c|y,z|C|three"]);
    assert_eq!(speech, "Three:\ndone");
    let (tools, _) = parse_tool_calls("[DELETE_FILE:old]");
    assert_eq!(kinds(&tools), vec!["delete old"]);
    let (tools, speech) = parse_tool_calls("[READ_FILE:open");
    assert!(tools.is_empty());
    assert_eq!(speech, "[READ_FILE:open");
}

#[test]
fn words_compare_without_case() {
    assert!(eq_ignore_case("SeTTings", "settings"));
    assert!(!eq_ignore_case("setting", "settings"));
    assert!(contains_ignore_case("Open the SETTINGS now", "settings"));
    assert!(!contains_ignore_case("abc", "abcd"));
}

#[test]
fn commands_are_matched() {
    let plan = try_pattern_match("settings").unwrap();
    assert_eq!(plan.steps.len(), 1);
    assert_eq!(plan.steps[0].intent_type, "settings.open");
    assert!(try_pattern_match("tell me a story").is_none());
    for input in ["Change Model please", "my API key", "switch to OpenAI", "use local model", "Configure it"] {
        let plan = try_pattern_match(input).unwrap();
        assert_eq!((plan.steps[0].intent_type.as_str(), plan.steps[0].payload.as_slice()), ("settings.open", &b"{}"[..]));
    }
    for input in ["HELP", "?"] {
        let plan = try_pattern_match(input).unwrap();
        assert_eq!(plan.steps[0].intent_type, "display.print");
        assert_eq!(
            String::from_utf8(plan.steps[0].payload.clone()).unwrap(),
            "Squirrel AIOS \u{2014} Commands:\n  settings    \u{2014} configure AI backend\n  help        \u{2014} show this help\n  clear       \u{2014} clear the screen\n  status      \u{2014} show system status\n  Or just talk naturally \u{2014} ask me to create, read, or list files.\n"
        );
    }
    for (input, kind) in [("cls", "display.clear"), (" Clear ", "display.clear"), ("ps", "system.status"), ("agents", "system.status")] {
        let plan = try_pattern_match(input).unwrap();
        assert_eq!(plan.steps[0].intent_type, kind);
        assert!(plan.steps[0].payload.is_empty());
    }
    assert!(try_pattern_match("helpful").is_none());
}

fn file(name: &str, size: u64, tags: Option<&str>, content: Option<&[u8]>) -> StoredFile {
    StoredFile { name: s(name), size, tags: tags.map(s), content: content.map(|c| c.to_vec()) }
}

#[test]
fn stored_tags_are_separated() {
    let file = ToolCall::CreateFile { name: s("n"), tags: s("poem, love"), description: s("About"), content: s("c") };
    if let StoreRequest::Replace { tags, .. } = tool_request(&file) {
        let (tags, description) = parse_stored_tags(&tags.join(","));
        assert_eq!((tags.as_str(), description.as_str()), ("poem,love", "About"));
    }
    let (tags, description) = parse_stored_tags("user-created, poem ,,love,desc: A poem ");
    assert_eq!((tags.as_str(), description.as_str()), ("poem,love", "A poem"));
    let (tags, description) = parse_stored_tags("");
    assert_eq!((tags.as_str(), description.as_str()), ("", ""));
}

#[test]
fn tools_ask_the_store() {
    let create =
        ToolCall::CreateFile { name: s("n"), tags: s("a, b,,"), description: s("about"), content: s("text") };
    match tool_request(&create) {
        StoreRequest::Replace { name, tags, content } => {
            assert_eq!((name.as_str(), content.as_str()), ("n", "text"));
            assert_eq!(tags, vec!["user-created", "a", "b", "desc:about"]);
        }
        _ => panic!("a file is stored"),
    }
    assert!(matches!(tool_request(&ToolCall::ReadFile { name: s("n") }), StoreRequest::Read { .. }));
    assert!(matches!(tool_request(&ToolCall::DeleteFile { name: s("n") }), StoreRequest::Delete { .. }));
    assert!(matches!(tool_request(&ToolCall::ListFiles), StoreRequest::List { contents: false }));
    assert!(matches!(tool_request(&ToolCall::SearchFiles { query: s("q") }), StoreRequest::List { contents: true }));
    assert_eq!(tool_state_text(&create), "svfs-write");
    assert_eq!(tool_state_text(&ToolCall::ListFiles), "svfs-list");
}

#[test]
fn store_replies_are_told() {
    let create = ToolCall::CreateFile { name: s("n"), tags: s("a"), description: s(""), content: s("h\u{e9}") };
    assert_eq!(tool_reply_text(&create, &StoreReply::Stored(true)), "[SVFS] Stored 'n' (3 bytes) [a]\n");
    assert_eq!(tool_reply_text(&create, &StoreReply::Stored(false)), "[SVFS Error: failed to store 'n']\n");
    assert_eq!(tool_reply_text(&create, &StoreReply::Unavailable), "[Error: SVFS not initialized]\n");
    let read = ToolCall::ReadFile { name: s("n") };
    assert_eq!(tool_reply_text(&read, &StoreReply::Missing), "[SVFS] File 'n' not found.\n");
    let found = StoreReply::Found { tags: s("user-created,x,desc:D"), content: Some(b"body".to_vec()) };
    assert_eq!(tool_reply_text(&read, &found), "--- n (4 bytes) ---\n  D\n  tags: x\n---\nbody\n---\n");
    let binary = StoreReply::Found { tags: s(""), content: Some(vec![0xff]) };
    assert_eq!(tool_reply_text(&read, &binary), "--- n (1 bytes) ---\n---\n<binary data>\n---\n");
    let unreadable = StoreReply::Found { tags: s(""), content: None };
    assert_eq!(tool_reply_text(&read, &unreadable), "[SVFS Error: could not read 'n']\n");
    let delete = ToolCall::DeleteFile { name: s("n") };
    assert_eq!(tool_reply_text(&delete, &StoreReply::Deleted(Some(true))), "[SVFS] Deleted 'n'\n");
    assert_eq!(tool_reply_text(&delete, &StoreReply::Deleted(Some(false))), "[SVFS] File 'n' not found.\n");
    assert_eq!(tool_reply_text(&delete, &StoreReply::Deleted(None)), "[SVFS Error: failed to delete 'n']\n");
}

#[test]
fn files_are_listed_and_searched() {
    let files = vec![
        file("sunset", 12, Some("user-created,poem,sky,desc:Golden evening"), Some(b"The sun")),
        file("todo", 3, Some("user-created"), Some(b"Buy MILK")),
        file("raw", 9, None, Some(b"milk")),
    ];
    let list = tool_reply_text(&ToolCall::ListFiles, &StoreReply::Files(vec![]));
    assert_eq!(list, "[SVFS] No files stored.\n");
    let search = |q: &str, files: Vec<StoredFile>| {
        tool_reply_text(&ToolCall::SearchFiles { query: s(q) }, &StoreReply::Files(files))
    };
    let copies = || {
        files
            .iter()
            .map(|f| StoredFile {
                name: f.name.clone(),
                size: f.size,
                tags: f.tags.clone(),
                content: f.content.clone(),
            })
            .collect::<Vec<_>>()
    };
    let list = tool_reply_text(&ToolCall::ListFiles, &StoreReply::Files(copies()));
    assert_eq!(
        list,
        "Files (3):\n  sunset          12 bytes  -- Golden evening  [poem,sky]\n  todo            3 bytes\n  raw             9 bytes\n"
    );
    assert_eq!(
        search("SKY", copies()),
        "Search results for 'SKY':\n  sunset          12 bytes  (matched: tags)\n    Golden evening\n    tags: poem,sky\n"
    );
    assert_eq!(
        search("milk", copies()),
        "Search results for 'milk':\n  todo            3 bytes  (matched: content)\n"
    );
    assert!(search("evening,zzz", copies()).contains("(matched: description)"));
    assert!(search("tod", copies()).contains("(matched: name)"));
    assert_eq!(search("zzz", copies()), "[SVFS] No files matching 'zzz' found.\n");
    assert_eq!(search("zzz", vec![]), "[SVFS] No files stored.\n");
}

// --- the conversation --------------------------------------------------------

struct World {
    bus: IntentBus,
    conn: BusConnection,
    screen: BusConnection,
    agent: PrimaryAiAgent,
}

fn world() -> World {
    let mut bus = IntentBus::new();
    let names = [
        "input.line",
        "inference.generate.response",
        "system.status",
        "settings.closed",
        "display.clear.done",
    ];
    let conn = bus.connect("primary-agent", &names);
    let screen = bus.connect("screen", &["display", "settings.open", "inference.generate", "glass-box"]);
    World { bus, conn, screen, agent: PrimaryAiAgent::new() }
}

impl World {
    fn poll(&mut self) -> Turn {
        let ctx = AgentContext { bus: &self.conn, tick: 77 };
        self.agent.poll(&ctx, &mut self.bus)
    }

    /// What was sent since the last look, one line each.
    fn seen(&mut self) -> Vec<String> {
        let mut out = vec![];
        while let Some(i) = self.screen.try_recv(&mut self.bus) {
            let kind = i.semantic_type.as_str();
            if kind == "glass-box.update" {
                let u = i.decode::<GlassBoxUpdate>().unwrap();
                out.push(format!("note {} {}", u.key, u.value));
            } else if kind == "display.print" {
                out.push(format!("print {}", String::from_utf8(i.payload).unwrap()));
            } else if kind != "inference.generate.response" {
                out.push(String::from(kind));
            }
        }
        out
    }

    fn line(&mut self, text: &str) {
        self.bus.send(Intent::with_bytes("input.line", "input", text.as_bytes().to_vec()));
    }
}

#[test]
fn agent_greets_once() {
    let mut w = world();
    let ctx = AgentContext { bus: &w.conn, tick: 0 };
    w.agent.on_start(&ctx, &mut w.bus);
    w.agent.on_start(&ctx, &mut w.bus);
    let seen = w.seen();
    assert_eq!(seen.len(), 3);
    assert!(seen[0].contains("Squirrel AIOS"));
    assert_eq!(seen[1], "note state waiting");
    assert_eq!(seen[2], "note state waiting");
}

#[test]
fn empty_line_gets_a_prompt() {
    let mut w = world();
    assert!(matches!(w.poll(), Turn::Idle));
    w.line("   ");
    assert!(matches!(w.poll(), Turn::Over));
    assert_eq!(w.seen(), vec!["print > "]);
}

#[test]
fn settings_are_opened_and_waited_for() {
    let mut w = world();
    w.line("settings");
    assert!(matches!(w.poll(), Turn::Over));
    assert_eq!(w.seen(), vec!["note last_input settings", "settings.open", "note state module-active"]);
    w.line("ignored");
    assert!(matches!(w.poll(), Turn::Idle));
    w.bus.send(Intent::with_bytes("settings.closed", "m", vec![]));
    assert!(matches!(w.poll(), Turn::Over));
    assert_eq!(w.seen(), vec!["print \n> ", "note state waiting"]);
}

#[test]
fn question_is_asked_and_answered() {
    let mut w = world();
    w.line("tell me a story");
    assert!(matches!(w.poll(), Turn::NeedFiles));
    let ctx = AgentContext { bus: &w.conn, tick: 0 };
    w.agent.ask(&ctx, &mut w.bus, None);
    assert_eq!(
        w.seen(),
        vec!["note last_input tell me a story", "inference.generate", "note state thinking", "print [thinking...]\n"]
    );
    w.line("dropped");
    let response = InferenceResponse {
        text: s("Once upon a time. [LIST_FILES]"),
        tokens_generated: 0,
        finish_reason: FinishReason::EndOfSequence,
        backend_used: s("x (m)"),
        latency_ms: 8,
    };
    w.bus.send(Intent::request("inference.generate.response", "e", &response));
    match w.poll() {
        Turn::RunTools { tools, speech, response } => {
            assert_eq!(kinds(&tools), vec!["list"]);
            assert_eq!(speech, "Once upon a time.");
            let ctx = AgentContext { bus: &w.conn, tick: 0 };
            w.agent.execute_tool_call(&ctx, &mut w.bus, &tools[0], &StoreReply::Files(vec![]));
            w.agent.finish_answer(&ctx, &mut w.bus, &speech, &response);
        }
        _ => panic!("the answer has a tool"),
    }
    assert_eq!(
        w.seen(),
        vec![
            "print Once upon a time.\n",
            "note state svfs-list",
            "print [SVFS] No files stored.\n",
            "print [x (m) in 8ms]\n> ",
            "note state waiting"
        ]
    );
    assert_eq!(
        w.agent.format_history(),
        "\nCONVERSATION HISTORY:\nUser: tell me a story\nAssistant: Once upon a time.\n"
    );
}

#[test]
fn errors_of_the_model_are_shown() {
    let mut w = world();
    for (payload, text) in
        [(Some("broken"), "print [Error: broken]\n> "), (None, "print [Error: could not decode response]\n> ")]
    {
        w.line("hm");
        w.poll();
        let ctx = AgentContext { bus: &w.conn, tick: 0 };
        w.agent.ask(&ctx, &mut w.bus, None);
        w.seen();
        match payload {
            Some(e) => {
                w.bus.send(Intent::request("inference.generate.response", "e", &s(e)));
            }
            None => {
                w.bus.send(Intent::with_bytes("inference.generate.response", "e", vec![]));
            }
        }
        assert!(matches!(w.poll(), Turn::Over));
        assert_eq!(w.seen(), vec![s(text), s("note state waiting")]);
    }
}

#[test]
fn history_keeps_six_turns() {
    let mut w = world();
    for i in 0..8 {
        w.line(&format!("q{}", i));
        w.poll();
        let ctx = AgentContext { bus: &w.conn, tick: 0 };
        w.agent.ask(&ctx, &mut w.bus, None);
        let response = InferenceResponse {
            text: s(""),
            tokens_generated: 0,
            finish_reason: FinishReason::EndOfSequence,
            backend_used: s(""),
            latency_ms: 0,
        };
        w.agent.finish_answer(&ctx, &mut w.bus, &"y".repeat(400), &response);
    }
    let h = w.agent.format_history();
    assert!(!h.contains("User: q1\n"));
    assert!(h.contains("User: q2\n"));
    assert_eq!(h.matches("User: ").count(), 6);
    assert!(h.contains(&format!("Assistant: {}\n", "y".repeat(300))));
}

#[test]
fn status_is_shown() {
    let mut w = world();
    w.bus.send(Intent::with_bytes("system.status", "x", vec![]));
    assert!(matches!(w.poll(), Turn::NeedBackend));
    let ctx = AgentContext { bus: &w.conn, tick: 77 };
    w.agent.show_status(&ctx, &mut w.bus, "local");
    assert_eq!(w.seen(), vec!["print Squirrel AIOS Status:\n  Backend: local\n  Tick: 77\n> "]);
}

#[test]
fn request_holds_prompt_files_and_history() {
    let files = vec![file("sunset", 12, Some("user-created,poem"), None)];
    let context = build_files_context(Some(&files));
    assert!(context.contains("sunset"));
    let r: InferenceRequest = build_inference_request("hello", "\nHIST", Some(&files));
    assert!(r.prompt.starts_with(SYSTEM_PROMPT));
    assert!(r.prompt.contains(&context));
    assert!(r.prompt.contains("\nHIST"));
    assert!(r.prompt.contains("hello"));
    assert_eq!(r.max_tokens, 400);
    assert_eq!(f32::from_bits(r.temperature), 0.7);
    assert_eq!(display_name("sunset"), "sunset");
    assert_eq!(display_name(""), "<unnamed>");
    assert_eq!(build_files_context(None), "\nFILES IN SVFS: (not initialized)");
    assert_eq!(build_files_context(Some(&vec![])), "\nFILES IN SVFS: (empty)");
    assert_eq!(
        context,
        "\nFILES IN SVFS (use exact names in tool tags):\n  sunset (12 bytes) [user-created,poem]\n"
    );
    assert_eq!(r.prompt, format!("{}\n{}\nHIST\nUser: hello\nAssistant:", SYSTEM_PROMPT, context));
    assert_eq!(r.stop_sequences, vec!["User:", "\n\nUser"]);
    assert!(SYSTEM_PROMPT.starts_with("You are Squirrel, AI brain of Squirrel AIOS \u{2014} a bare-metal OS"));
    assert!(SYSTEM_PROMPT.ends_with("no USB/WiFi/GUI."));
}

#[test]
fn speech_holds_no_closed_tag() {
    let (tools, speech) = parse_tool_calls("a [READ_FILE:x] [DELETE_FILE:y] b [SEARCH_FILES:q][LIST_FILES] c [READ_FILE:open");
    assert_eq!(kinds(&tools).len(), 4);
    assert_eq!(speech, "a\nb\nc [READ_FILE:open");
    let (tools, speech) = parse_tool_calls("  [READ_FILE:[DELETE_FILE:z]  ");
    assert_eq!(kinds(&tools), vec!["read [DELETE_FILE:z"]);
    assert_eq!(speech, "");
}

#[test]
fn history_text_tells_the_last_turns() {
    let mut agent = PrimaryAiAgent::new();
    assert_eq!(agent.format_history(), "");
    let long = "x".repeat(400);
    for i in 0..8 {
        agent.push_history(format!("u{}", i), if i == 7 { &long } else { "yes" });
    }
    let mut expected = s("\nCONVERSATION HISTORY:\n");
    for i in 2..7 {
        expected.push_str(&format!("User: u{}\nAssistant: yes\n", i));
    }
    expected.push_str(&format!("User: u7\nAssistant: {}\n", "x".repeat(300)));
    assert_eq!(agent.format_history(), expected);
}
