use squirrel::intent_bus::intent::Intent;
use squirrel::kernel::agents::settings_handler::requested_change;
use squirrel::modules::display::DisplayModule;
use squirrel::modules::hello::HelloModule;
use squirrel::modules::host::{split_frame, split_rest, u32_to_ascii, HostCall};
use squirrel::modules::input::{InputModule, MAX_LINE};
use squirrel::modules::settings::SettingsModule;
use squirrel::modules::storage::StorageModule;
use squirrel::system::SettingsChange;

fn frame(kind: &str, payload: &[u8]) -> Vec<u8> {
    let mut f = (kind.len() as u16).to_le_bytes().to_vec();
    f.extend_from_slice(kind.as_bytes());
    f.extend_from_slice(&(payload.len() as u16).to_le_bytes());
    f.extend_from_slice(payload);
    f
}

fn key_frame(kind: &str, payload: &[u8]) -> Vec<u8> {
    let mut f = (kind.len() as u16).to_le_bytes().to_vec();
    f.extend_from_slice(kind.as_bytes());
    f.extend_from_slice(payload);
    f
}

/// Calls in one line each.
fn shown(calls: &[HostCall]) -> Vec<String> {
    calls
        .iter()
        .map(|c| match c {
            HostCall::Send { intent_type, payload } => {
                format!("send {} {}", intent_type, String::from_utf8_lossy(payload))
            }
            HostCall::GlassBox { key, value } => format!("note {} {}", key, String::from_utf8_lossy(value)),
            HostCall::Log { message } => format!("log {}", message),
            HostCall::Write { bytes } => format!("write {}", String::from_utf8_lossy(bytes)),
        })
        .collect()
}

#[test]
fn frames_are_split() {
    let f = frame("a.b", b"xyz");
    assert_eq!(split_frame(&f), Some((&b"a.b"[..], &b"xyz"[..])));
    assert_eq!(split_frame(&f[..f.len() - 1]), Some((&b"a.b"[..], &b"xy"[..])));
    assert_eq!(split_frame(&f[..6]), None);
    assert_eq!(split_frame(&[1, 0, 7]), None);
    assert_eq!(split_rest(&key_frame("a", b"xyz")), Some((&b"a"[..], &b"xyz"[..])));
    assert_eq!(split_rest(&[9, 0, 7]), None);
    assert_eq!(split_rest(&[9]), None);
}

#[test]
fn numbers_are_written_in_decimal() {
    assert_eq!(u32_to_ascii(0), "0");
    assert_eq!(u32_to_ascii(4_294_967_295), "4294967295");
}

#[test]
fn hello_module_says_hello_once() {
    assert_eq!(shown(&HelloModule.init()), vec!["log Hello from WASM!", "send hello.world \0"]);
    assert!(HelloModule.poll().is_empty());
}

#[test]
fn display_module_prints_and_counts() {
    let mut m = DisplayModule::new();
    assert_eq!(shown(&m.init()), vec!["send display.ready ", "note status ready"]);
    assert_eq!(shown(&m.poll(&frame("display.print", b"hi"))), vec!["write hi", "note lines_printed 1"]);
    assert_eq!(shown(&m.poll(&frame("display.print", b"\n"))), vec!["write \n", "note lines_printed 2"]);
    assert_eq!(
        shown(&m.poll(&frame("display.clear", b""))),
        vec!["send kernel.display.clear ", "send display.clear.done ", "note status cleared"]
    );
    assert_eq!(shown(&m.poll(&frame("display.prompt", b""))), vec!["write > "]);
    assert!(m.poll(&frame("other", b"")).is_empty());
    assert!(m.poll(&[]).is_empty());
    m.line_count = u32::MAX;
    m.poll(&frame("display.print", b""));
    assert_eq!(m.line_count, 0);
}

#[test]
fn storage_module_carries_both_ways() {
    let mut m = StorageModule::new();
    assert_eq!(shown(&m.init()), vec!["send storage.ready ", "note status ready"]);
    assert_eq!(shown(&m.poll(&frame("storage.store", b"x"))), vec!["send kernel.storage.store x", "note ops 1"]);
    assert_eq!(shown(&m.poll(&frame("storage.retrieve", b"y"))), vec!["send kernel.storage.retrieve y", "note ops 2"]);
    assert_eq!(
        shown(&m.poll(&frame("kernel.storage.store.response", b"z"))),
        vec!["send storage.store.response z"]
    );
    assert_eq!(
        shown(&m.poll(&frame("kernel.storage.retrieve.response", b"w"))),
        vec!["send storage.retrieve.response w"]
    );
    assert!(m.poll(&frame("storage.other", b"")).is_empty());
    assert_eq!(m.ops_count, 2);
}

#[test]
fn settings_screen_opens_and_closes() {
    let mut m = SettingsModule::new("Some Model 1", "some-model-1");
    assert_eq!(shown(&m.init()), vec!["log Settings module loaded", "note status ready"]);
    assert!(m.poll(&frame("input.char", b"1")).is_empty());
    let calls = shown(&m.poll(&frame("settings.open", b"")));
    assert_eq!(calls.len(), 15);
    assert_eq!(calls[8], "send display.print |  [3] anthropic   - Some Model 1                     |\n");
    assert_eq!(calls[8].len(), calls[7].len());
    assert_eq!(calls[14], "note status settings-screen-visible");
    assert!(m.active);
    assert!(m.poll(&frame("input.char", b"9")).is_empty());
    assert!(m.poll(&frame("input.char", b"")).is_empty());
    let calls = shown(&m.poll(&frame("input.char", b"\r")));
    assert_eq!(
        calls,
        vec![
            "send display.print \n  Settings saved. Returning...\n\n",
            "send settings.closed ",
            "note status idle"
        ]
    );
    assert!(!m.active);
}

#[test]
fn settings_choices_are_sent() {
    let mut m = SettingsModule::new("Some Model 1", "some-model-1");
    m.poll(&frame("settings.open", b""));
    let calls = shown(&m.poll(&frame("input.char", b"2")));
    assert_eq!(
        calls,
        vec![
            "send settings.set inference.backend\0openai",
            "send settings.set inference.model_id\0gpt-4o",
            "send display.print \n  Enter API key (hidden): ",
            "send input.request_secret openai",
        ]
    );
    assert_eq!(shown(&m.poll(&frame("input.char", b"3")))[1], "send settings.set inference.model_id\0some-model-1");
    assert_eq!(shown(&m.poll(&frame("input.char", b"4")))[1], "send settings.set inference.model_id\0gemini-2.0-flash");
    assert_eq!(
        shown(&m.poll(&frame("input.char", b"5"))),
        vec!["send display.print   Enter custom API base URL: ", "send input.request_line "]
    );
    assert!(m.active);
    let calls = shown(&m.poll(&frame("input.char", b"1")));
    assert_eq!(calls[0], "send settings.set inference.backend\0local");
    assert_eq!(calls[1], "send display.print \n  Backend set to: local\n");
    assert_eq!(calls.len(), 5);
    assert!(!m.active);
}

#[test]
fn choices_and_secrets_reach_the_settings_handler() {
    let mut m = SettingsModule::new("Some Model 1", "some-model-1");
    m.poll(&frame("settings.open", b""));
    let calls = m.poll(&frame("input.char", b"4"));
    match &calls[1] {
        HostCall::Send { intent_type, payload } => {
            let intent = Intent::with_bytes(intent_type, "settings-module", payload.clone());
            match requested_change(&intent) {
                Some(SettingsChange::Value { key, value }) => {
                    assert_eq!((key.as_str(), value.as_str()), ("inference.model_id", "gemini-2.0-flash"));
                }
                _ => panic!("a value is set"),
            }
        }
        _ => panic!("the choice is sent"),
    }
    let mut input = InputModule::new();
    input.poll(&key_frame("input.request_secret", b"gemini"));
    for key in b"k3y!" {
        input.handle_char(*key);
    }
    match &input.handle_char(b'\n')[0] {
        HostCall::Send { intent_type, payload } => {
            let intent = Intent::with_bytes(intent_type, "input-module", payload.clone());
            match requested_change(&intent) {
                Some(SettingsChange::ApiKey(key)) => assert_eq!(key, "k3y!"),
                _ => panic!("the key is set"),
            }
        }
        _ => panic!("the secret is sent"),
    }
}

#[test]
fn lines_are_edited_and_sent() {
    let mut m = InputModule::new();
    assert_eq!(shown(&m.init()), vec!["send input.ready ", "note status ready"]);
    assert_eq!(shown(&m.poll(&key_frame("input.char", b"h"))), vec!["send display.print h", "note chars_typed 1"]);
    m.handle_char(b'x');
    assert_eq!(shown(&m.handle_char(8)), vec!["send display.print \u{8} \u{8}", "note chars_typed 3"]);
    m.handle_char(b'i');
    assert_eq!(
        shown(&m.handle_char(b'\n')),
        vec!["send input.line hi", "send display.print \n", "note mode normal", "note chars_typed 5"]
    );
    assert_eq!(shown(&m.handle_char(127)), vec!["note chars_typed 6"]);
    assert_eq!(shown(&m.handle_char(1)), vec!["note chars_typed 7"]);
    assert!(m.poll(&key_frame("input.char", b"")).is_empty());
    assert!(m.poll(&key_frame("other", b"x")).is_empty());
}

#[test]
fn secrets_are_masked() {
    let mut m = InputModule::new();
    assert_eq!(shown(&m.poll(&key_frame("input.request_secret", b"openai"))), vec!["note mode secret"]);
    assert_eq!(shown(&m.handle_char(b'k'))[0], "send display.print *");
    assert_eq!(shown(&m.handle_char(b'\r'))[0], "send input.secret.response k");
    assert_eq!(shown(&m.handle_char(b'z'))[0], "send display.print z");
    m.poll(&key_frame("input.request_secret", b""));
    assert_eq!(shown(&m.poll(&key_frame("input.request_line", b""))), vec!["note mode normal"]);
    assert_eq!(shown(&m.handle_char(b'y'))[0], "send display.print y");
}

#[test]
fn line_buffer_is_bounded() {
    let mut m = InputModule::new();
    for _ in 0..(MAX_LINE + 5) {
        m.handle_char(b'a');
    }
    match &m.handle_char(b'\n')[0] {
        HostCall::Send { payload, .. } => assert_eq!(payload.len(), MAX_LINE),
        _ => panic!("the line is sent first"),
    }
}
