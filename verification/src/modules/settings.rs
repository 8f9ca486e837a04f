//! The settings module: an interactive screen for the inference backend.

use vstd::prelude::*;
use vstd::utf8::*;

use crate::glass_box::display::{pad_right, padded_right};
use crate::modules::host::{framed, notes, print, prints, send_intent, sends, split_frame, update_glass_box, HostCall, HostView};
use crate::text::{bytes_eq, text};
use crate::views::{group_views, views};

verus! {

/// Bytes that are received at once.
pub const SETTINGS_BUFFER: usize = 512;

/// The settings module.
pub struct SettingsModule {
    /// The screen is shown.
    pub active: bool,
    /// How the model of the third choice is shown.
    pub anthropic_label: String,
    /// The model of the third choice.
    pub anthropic_model: String,
}

/// What the settings module holds.
#[verifier::ext_equal]
pub struct SettingsScreen {
    pub active: bool,
    pub anthropic_label: Seq<char>,
    pub anthropic_model: Seq<char>,
}

impl View for SettingsModule {
    type V = SettingsScreen;

    open spec fn view(&self) -> SettingsScreen {
        SettingsScreen {
            active: self.active,
            anthropic_label: self.anthropic_label@,
            anthropic_model: self.anthropic_model@,
        }
    }
}

/// What shows the screen.
pub open spec fn screen(label: Seq<char>) -> Seq<HostView> {
    seq![
        prints("\n"@),
        prints("+----------------------------------------------------+\n"@),
        prints("|  Squirrel AIOS - Settings                          |\n"@),
        prints("+----------------------------------------------------+\n"@),
        prints("|  AI Inference Backend:                              |\n"@),
        prints("|                                                    |\n"@),
        prints("|  [1] local       - on-device GGUF model             |\n"@),
        prints("|  [2] openai      - GPT-4o                           |\n"@),
        prints("|  [3] anthropic   - "@ + pad_right(label, 33) + "|\n"@),
        prints("|  [4] gemini      - Gemini 2.0 Flash                 |\n"@),
        prints("|  [5] custom      - your own endpoint                |\n"@),
        prints("|                                                    |\n"@),
        prints("|  Type a number to switch, or Enter to cancel.       |\n"@),
        prints("+----------------------------------------------------+\n\n"@),
        notes("status"@, "settings-screen-visible"@),
    ]
}

/// What changes a setting: the key and the value, with a zero byte between them.
pub open spec fn sets(key: Seq<char>, value: Seq<char>) -> HostView {
    sends("settings.set"@, encode_utf8(key + "\0"@ + value))
}

/// What closes the screen.
pub open spec fn closing() -> Seq<HostView> {
    seq![
        prints("\n  Settings saved. Returning...\n\n"@),
        sends("settings.closed"@, Seq::empty()),
        notes("status"@, "idle"@),
    ]
}

/// What switches to a backend in the cloud.
pub open spec fn cloud(backend: Seq<char>, model: Seq<char>) -> Seq<HostView> {
    seq![
        sets("inference.backend"@, backend),
        sets("inference.model_id"@, model),
        prints("\n  Enter API key (hidden): "@),
        sends("input.request_secret"@, encode_utf8(backend)),
    ]
}

/// What a key does while the screen is shown, and whether it is still shown.
pub open spec fn chosen(key: u8, anthropic_model: Seq<char>) -> (bool, Seq<HostView>) {
    if key == 49 {
        (
            false,
            seq![sets("inference.backend"@, "local"@), prints("\n  Backend set to: local\n"@)] + closing(),
        )
    } else if key == 50 {
        (true, cloud("openai"@, "gpt-4o"@))
    } else if key == 51 {
        (true, cloud("anthropic"@, anthropic_model))
    } else if key == 52 {
        (true, cloud("gemini"@, "gemini-2.0-flash"@))
    } else if key == 53 {
        (true, seq![prints("  Enter custom API base URL: "@), sends("input.request_line"@, Seq::empty())])
    } else if key == 10 || key == 13 {
        (false, closing())
    } else {
        (true, Seq::empty())
    }
}

/// What the module does with a received frame, and whether the screen is shown after it.
pub open spec fn configured(s: SettingsScreen, received: Seq<u8>) -> (bool, Seq<HostView>) {
    match framed(received) {
        None => (s.active, Seq::empty()),
        Some((t, payload)) => if t == encode_utf8("settings.open"@) {
            (true, screen(s.anthropic_label))
        } else if s.active && t == encode_utf8("input.char"@) && payload.len() > 0 {
            chosen(payload[0], s.anthropic_model)
        } else {
            (s.active, Seq::empty())
        },
    }
}

/// Show the screen.
fn render_settings_screen(label: &str) -> (r: Vec<HostCall>)
    ensures
        views(r@) == screen(label@),
{
    broadcast use group_views;

    let mut out: Vec<HostCall> = Vec::new();
    out.push(print("\n"));
    out.push(print("+----------------------------------------------------+\n"));
    out.push(print("|  Squirrel AIOS - Settings                          |\n"));
    out.push(print("+----------------------------------------------------+\n"));
    out.push(print("|  AI Inference Backend:                              |\n"));
    out.push(print("|                                                    |\n"));
    out.push(print("|  [1] local       - on-device GGUF model             |\n"));
    out.push(print("|  [2] openai      - GPT-4o                           |\n"));
    let mut third = text("|  [3] anthropic   - ");
    third.push_str(padded_right(label, 33).as_str());
    third.push_str("|\n");
    out.push(print(third.as_str()));
    out.push(print("|  [4] gemini      - Gemini 2.0 Flash                 |\n"));
    out.push(print("|  [5] custom      - your own endpoint                |\n"));
    out.push(print("|                                                    |\n"));
    out.push(print("|  Type a number to switch, or Enter to cancel.       |\n"));
    out.push(print("+----------------------------------------------------+\n\n"));
    out.push(update_glass_box("status", "settings-screen-visible"));
    out
}

/// Change a setting.
fn change(key: &str, value: &str) -> (r: HostCall)
    ensures
        r@ == sets(key@, value@),
{
    let mut payload = text(key);
    payload.push_str("\0");
    payload.push_str(value);
    send_intent("settings.set", payload.as_str().as_bytes())
}

/// Switch to a backend in the cloud, and ask for its key.
fn set_backend_cloud(backend: &str, model: &str) -> (r: Vec<HostCall>)
    ensures
        views(r@) == cloud(backend@, model@),
{
    broadcast use group_views;

    let mut out: Vec<HostCall> = Vec::new();
    out.push(change("inference.backend", backend));
    out.push(change("inference.model_id", model));
    out.push(print("\n  Enter API key (hidden): "));
    out.push(send_intent("input.request_secret", backend.as_bytes()));
    out
}

impl SettingsModule {
    pub fn new(anthropic_label: &str, anthropic_model: &str) -> (r: Self)
        ensures
            r@ == (SettingsScreen { active: false, anthropic_label: anthropic_label@, anthropic_model: anthropic_model@ }),
    {
        SettingsModule {
            active: false,
            anthropic_label: text(anthropic_label),
            anthropic_model: text(anthropic_model),
        }
    }

    /// Called once when the module is loaded.
    pub fn init(&self) -> (r: Vec<HostCall>)
        ensures
            views(r@) == seq![HostView::Log { message: "Settings module loaded"@ }, notes("status"@, "ready"@)],
    {
        broadcast use group_views;

        let mut out: Vec<HostCall> = Vec::new();
        out.push(HostCall::Log { message: text("Settings module loaded") });
        out.push(update_glass_box("status", "ready"));
        out
    }

    /// Called every tick, with the frame that was received.
    pub fn poll(&mut self, received: &[u8]) -> (r: Vec<HostCall>)
        ensures
            (final(self).active, views(r@)) == configured(old(self)@, received@),
            final(self)@ == (SettingsScreen { active: final(self).active, ..old(self)@ }),
    {
        broadcast use group_views;

        match split_frame(received) {
            None => Vec::new(),
            Some((t, payload)) => if bytes_eq(t, "settings.open".as_bytes()) {
                self.active = true;
                render_settings_screen(self.anthropic_label.as_str())
            } else if self.active && bytes_eq(t, "input.char".as_bytes()) && payload.len() > 0 {
                self.handle_input(payload[0])
            } else {
                Vec::new()
            },
        }
    }

    /// Take a key while the screen is shown.
    fn handle_input(&mut self, key: u8) -> (r: Vec<HostCall>)
        requires
            old(self).active,
        ensures
            (final(self).active, views(r@)) == chosen(key, old(self).anthropic_model@),
            final(self)@ == (SettingsScreen { active: final(self).active, ..old(self)@ }),
    {
        broadcast use group_views;

        if key == 49 {
            let mut out: Vec<HostCall> = Vec::new();
            out.push(change("inference.backend", "local"));
            out.push(print("\n  Backend set to: local\n"));
            self.close_settings(&mut out);
            out
        } else if key == 50 {
            set_backend_cloud("openai", "gpt-4o")
        } else if key == 51 {
            set_backend_cloud("anthropic", self.anthropic_model.as_str())
        } else if key == 52 {
            set_backend_cloud("gemini", "gemini-2.0-flash")
        } else if key == 53 {
            let none: Vec<u8> = Vec::new();
            assert(none@ =~= Seq::empty());
            let mut out: Vec<HostCall> = Vec::new();
            out.push(print("  Enter custom API base URL: "));
            out.push(send_intent("input.request_line", none.as_slice()));
            out
        } else if key == 10 || key == 13 {
            let mut out: Vec<HostCall> = Vec::new();
            self.close_settings(&mut out);
            out
        } else {
            Vec::new()
        }
    }

    /// Close the screen.
    fn close_settings(&mut self, out: &mut Vec<HostCall>)
        ensures
            final(self)@ == (SettingsScreen { active: false, ..old(self)@ }),
            views(final(out)@) == views(old(out)@) + closing(),
    {
        broadcast use group_views;

        let none: Vec<u8> = Vec::new();
        assert(none@ =~= Seq::empty());
        self.active = false;
        out.push(print("\n  Settings saved. Returning...\n\n"));
        out.push(send_intent("settings.closed", none.as_slice()));
        out.push(update_glass_box("status", "idle"));
        assert(views(out@) =~= views(old(out)@) + closing());
    }
}

/// A screen that is not shown takes no keys: until it is opened the module does nothing.
pub proof fn law_closed_screen_is_silent(s: SettingsScreen, received: Seq<u8>)
    requires
        !s.active,
        framed(received) is Some ==> (framed(received)->0).0 != encode_utf8("settings.open"@),
    ensures
        configured(s, received) == (false, Seq::<HostView>::empty()),
{
}

} // verus!
