//! What holds of the modules as a whole: what comes in a frame, and what goes out for it.

use vstd::prelude::*;
use vstd::utf8::*;

use crate::glass_box::display::pad_right;
use crate::modules::display::{counted, displayed};
use crate::modules::host::{frame_of, framed_rest, law_frame_round_trip, length_at, length_bytes, HostView};
use crate::modules::input::{entered, InputView};
use crate::modules::settings::{chosen, configured, screen, SettingsScreen};
use crate::modules::storage::proxied;
use crate::text::{contains, decimal};
use crate::text_laws::law_inserted_is_found;

verus! {

/// The frame of an intent with a type in text.
pub open spec fn frame(t: Seq<char>, payload: Seq<u8>) -> Seq<u8> {
    frame_of(encode_utf8(t), payload)
}

/// An intent that a module sends.
pub open spec fn sending(t: Seq<char>, payload: Seq<u8>) -> HostView {
    HostView::Send { intent_type: t, payload }
}

/// A text that a module sends to the display.
pub open spec fn showing(s: Seq<char>) -> HostView {
    HostView::Send { intent_type: "display.print"@, payload: encode_utf8(s) }
}

/// An entry that a module publishes.
pub open spec fn publishing(key: Seq<char>, value: Seq<char>) -> HostView {
    HostView::GlassBox { key, value: encode_utf8(value) }
}

/// Different texts have different bytes.
proof fn lemma_bytes_differ(a: Seq<char>, b: Seq<char>)
    requires
        a != b,
    ensures
        encode_utf8(a) != encode_utf8(b),
{
    encode_utf8_decode_utf8(a);
    encode_utf8_decode_utf8(b);
}

/// A short text in ASCII has as many bytes as characters.
proof fn lemma_ascii_length(s: Seq<char>)
    requires
        is_ascii_chars(s),
    ensures
        encode_utf8(s).len() == s.len(),
{
    is_ascii_chars_encode_utf8(s);
}

/// A count grows by one, and starts over after its largest value.
pub proof fn law_count_grows(n: u32)
    ensures
        counted(n) as int == (n as int + 1) % 0x1_0000_0000,
{
}

/// A text to print is written as it is, and counted; a clear goes to the kernel, and is
/// reported as done; a prompt is written; anything else is left alone.
pub proof fn law_display(count: u32, payload: Seq<u8>, t: Seq<char>)
    requires
        payload.len() < 0x1_0000,
        encode_utf8(t).len() < 0x1_0000,
    ensures
        t == "display.print"@ ==> displayed(count, frame(t, payload)).0 as int == (count + 1) % 0x1_0000_0000
            && displayed(count, frame(t, payload)).1 == seq![
            HostView::Write { bytes: payload },
            publishing("lines_printed"@, decimal(((count + 1) % 0x1_0000_0000) as nat)),
        ],
        t == "display.clear"@ ==> displayed(count, frame(t, payload)) == (
            count,
            seq![
                sending("kernel.display.clear"@, Seq::empty()),
                sending("display.clear.done"@, Seq::empty()),
                publishing("status"@, "cleared"@),
            ],
        ),
        t == "display.prompt"@ ==> displayed(count, frame(t, payload)) == (
            count,
            seq![HostView::Write { bytes: encode_utf8("> "@) }],
        ),
        t != "display.print"@ && t != "display.clear"@ && t != "display.prompt"@ ==> displayed(
            count,
            frame(t, payload),
        ) == (count, Seq::<HostView>::empty()),
{
    law_frame_round_trip(encode_utf8(t), payload);
    law_count_grows(count);
    reveal_strlit("display.print");
    reveal_strlit("display.clear");
    reveal_strlit("display.prompt");
    assert("display.print"@[8] != "display.clear"@[8]);
    assert("display.print"@.len() == 13);
    assert("display.clear"@.len() == 13);
    assert("display.prompt"@.len() == 14);
    lemma_bytes_differ("display.clear"@, "display.print"@);
    lemma_bytes_differ("display.prompt"@, "display.print"@);
    lemma_bytes_differ("display.prompt"@, "display.clear"@);
    if t != "display.print"@ {
        lemma_bytes_differ(t, "display.print"@);
    }
    if t != "display.clear"@ {
        lemma_bytes_differ(t, "display.clear"@);
    }
    if t != "display.prompt"@ {
        lemma_bytes_differ(t, "display.prompt"@);
    }
}

/// A request to the store goes to the kernel under the same name, with the payload that it
/// came with, and is counted; the kernel's response goes back under the request's name.
#[verifier::rlimit(40)]
pub proof fn law_storage(count: u32, payload: Seq<u8>, t: Seq<char>)
    requires
        payload.len() < 0x1_0000,
        t == "storage.store"@ || t == "storage.retrieve"@,
    ensures
        proxied(count, frame(t, payload)).0 as int == (count + 1) % 0x1_0000_0000,
        proxied(count, frame(t, payload)).1 == seq![
            sending("kernel."@ + t, payload),
            publishing("ops"@, decimal(((count + 1) % 0x1_0000_0000) as nat)),
        ],
        proxied(count, frame("kernel."@ + t + ".response"@, payload)) == (
            count,
            seq![sending(t + ".response"@, payload)],
        ),
{
    law_count_grows(count);
    reveal_strlit("storage.store");
    reveal_strlit("storage.retrieve");
    reveal_strlit("kernel.");
    reveal_strlit(".response");
    reveal_strlit("kernel.storage.store");
    reveal_strlit("kernel.storage.retrieve");
    reveal_strlit("kernel.storage.store.response");
    reveal_strlit("kernel.storage.retrieve.response");
    reveal_strlit("storage.store.response");
    reveal_strlit("storage.retrieve.response");
    assert("kernel."@ + "storage.store"@ =~= "kernel.storage.store"@);
    assert("kernel."@ + "storage.retrieve"@ =~= "kernel.storage.retrieve"@);
    assert("kernel."@ + "storage.store"@ + ".response"@ =~= "kernel.storage.store.response"@);
    assert("kernel."@ + "storage.retrieve"@ + ".response"@ =~= "kernel.storage.retrieve.response"@);
    assert("storage.store"@ + ".response"@ =~= "storage.store.response"@);
    assert("storage.retrieve"@ + ".response"@ =~= "storage.retrieve.response"@);
    let back = "kernel."@ + t + ".response"@;
    assert(is_ascii_chars(t));
    assert(is_ascii_chars(back));
    lemma_ascii_length(t);
    lemma_ascii_length(back);
    law_frame_round_trip(encode_utf8(t), payload);
    law_frame_round_trip(encode_utf8(back), payload);
    assert("storage.store"@.len() == 13);
    assert("storage.retrieve"@.len() == 16);
    assert("kernel.storage.store.response"@.len() == 29);
    assert("kernel.storage.retrieve.response"@.len() == 32);
    lemma_bytes_differ("storage.retrieve"@, "storage.store"@);
    lemma_bytes_differ(back, "storage.store"@);
    lemma_bytes_differ(back, "storage.retrieve"@);
    lemma_bytes_differ("kernel.storage.retrieve.response"@, "kernel.storage.store.response"@);
}

/// What a choice of the settings does to a setting: the key and the value, with a zero byte
/// between them.
pub open spec fn changing(key: Seq<char>, value: Seq<char>) -> HostView {
    HostView::Send { intent_type: "settings.set"@, payload: encode_utf8(key + "\0"@ + value) }
}

/// The number of a backend on the screen switches to it: the local one at once, the ones in
/// the cloud with their model, after which the key is asked for.
pub proof fn law_choices(model: Seq<char>)
    ensures
        chosen(49, model).1.contains(changing("inference.backend"@, "local"@)),
        !chosen(49, model).0,
        chosen(50, model).1.contains(changing("inference.backend"@, "openai"@)),
        chosen(50, model).1.contains(changing("inference.model_id"@, "gpt-4o"@)),
        chosen(50, model).1.contains(sending("input.request_secret"@, encode_utf8("openai"@))),
        chosen(51, model).1.contains(changing("inference.backend"@, "anthropic"@)),
        chosen(51, model).1.contains(changing("inference.model_id"@, model)),
        chosen(51, model).1.contains(sending("input.request_secret"@, encode_utf8("anthropic"@))),
        chosen(52, model).1.contains(changing("inference.backend"@, "gemini"@)),
        chosen(52, model).1.contains(changing("inference.model_id"@, "gemini-2.0-flash"@)),
        chosen(52, model).1.contains(sending("input.request_secret"@, encode_utf8("gemini"@))),
        chosen(53, model).1.contains(sending("input.request_line"@, Seq::empty())),
{
    assert(chosen(49, model).1[0] == changing("inference.backend"@, "local"@));
    assert(chosen(50, model).1[0] == changing("inference.backend"@, "openai"@));
    assert(chosen(50, model).1[1] == changing("inference.model_id"@, "gpt-4o"@));
    assert(chosen(50, model).1[3] == sending("input.request_secret"@, encode_utf8("openai"@)));
    assert(chosen(51, model).1[0] == changing("inference.backend"@, "anthropic"@));
    assert(chosen(51, model).1[1] == changing("inference.model_id"@, model));
    assert(chosen(51, model).1[3] == sending("input.request_secret"@, encode_utf8("anthropic"@)));
    assert(chosen(52, model).1[0] == changing("inference.backend"@, "gemini"@));
    assert(chosen(52, model).1[1] == changing("inference.model_id"@, "gemini-2.0-flash"@));
    assert(chosen(52, model).1[3] == sending("input.request_secret"@, encode_utf8("gemini"@)));
    assert(chosen(53, model).1[1] == sending("input.request_line"@, Seq::empty()));
}

/// Enter closes the screen and says so; a key that is no choice does nothing; and no key
/// but the first choice and Enter closes it.
pub proof fn law_screen_is_closed(key: u8, model: Seq<char>)
    ensures
        chosen(key, model).0 <==> key != 49 && key != 10 && key != 13,
        !chosen(key, model).0 ==> chosen(key, model).1.contains(sending("settings.closed"@, Seq::empty())),
        key == 10 || key == 13 ==> forall|k: Seq<char>, v: Seq<char>|
            !chosen(key, model).1.contains(#[trigger] changing(k, v)),
        !(49 <= key <= 53) && key != 10 && key != 13 ==> chosen(key, model).1.len() == 0,
{
    let calls = chosen(key, model).1;
    let n = calls.len();
    if !chosen(key, model).0 {
        assert(calls[n - 2] == sending("settings.closed"@, Seq::empty()));
    }
    if key == 10 || key == 13 {
        reveal_strlit("display.print");
        reveal_strlit("settings.set");
        reveal_strlit("settings.closed");
        assert("display.print"@.len() == 13);
        assert("settings.set"@.len() == 12);
        assert("settings.closed"@.len() == 15);
        assert forall|k: Seq<char>, v: Seq<char>| !calls.contains(#[trigger] changing(k, v)) by {
            if calls.contains(changing(k, v)) {
                let j = choose|j: int| 0 <= j < calls.len() && calls[j] == changing(k, v);
                assert(j == 0 || j == 1 || j == 2);
            }
        }
    }
}

/// Opening shows the screen whether it is shown or not; a key is taken only while it is
/// shown; and what is neither changes nothing.
pub proof fn law_settings(s: SettingsScreen, payload: Seq<u8>, t: Seq<char>)
    requires
        payload.len() < 0x1_0000,
        encode_utf8(t).len() < 0x1_0000,
    ensures
        t == "settings.open"@ ==> configured(s, frame(t, payload)) == (true, screen(s.anthropic_label)),
        t == "input.char"@ && payload.len() > 0 && s.active ==> configured(s, frame(t, payload)) == chosen(
            payload[0],
            s.anthropic_model,
        ),
        t == "input.char"@ && !s.active ==> configured(s, frame(t, payload)) == (false, Seq::<HostView>::empty()),
        t != "settings.open"@ && t != "input.char"@ ==> configured(s, frame(t, payload)) == (
            s.active,
            Seq::<HostView>::empty(),
        ),
{
    law_frame_round_trip(encode_utf8(t), payload);
    reveal_strlit("settings.open");
    reveal_strlit("input.char");
    assert("settings.open"@.len() == 13);
    assert("input.char"@.len() == 10);
    lemma_bytes_differ("input.char"@, "settings.open"@);
    if t != "settings.open"@ {
        lemma_bytes_differ(t, "settings.open"@);
    }
    if t != "input.char"@ {
        lemma_bytes_differ(t, "input.char"@);
    }
}

/// The screen shows the number and the name of every choice, and the label of the third.
#[verifier::rlimit(40)]
pub proof fn law_screen_shows_choices(label: Seq<char>, k: int)
    requires
        1 <= k <= 5,
    ensures
        exists|i: int, line: Seq<char>|
            0 <= i < screen(label).len() && #[trigger] screen(label)[i] == #[trigger] showing(line) && contains(
                line,
                seq!['['] + decimal(k as nat) + "] "@ + (if k == 1 {
                    "local"@
                } else if k == 2 {
                    "openai"@
                } else if k == 3 {
                    "anthropic"@
                } else if k == 4 {
                    "gemini"@
                } else {
                    "custom"@
                }),
            ),
{
    reveal_with_fuel(decimal, 2);
    reveal_strlit("] ");
    reveal_strlit("local");
    reveal_strlit("openai");
    reveal_strlit("anthropic");
    reveal_strlit("gemini");
    reveal_strlit("custom");
    let s = screen(label);
    if k == 1 {
        let line = "|  [1] local       - on-device GGUF model             |\n"@;
        reveal_strlit("|  [1] local       - on-device GGUF model             |\n");
        let p = seq!['['] + decimal(1) + "] "@ + "local"@;
        assert(line =~= line.take(3) + p + line.skip(12));
        law_inserted_is_found(line.take(3), p, line.skip(12));
        assert(s[6] == showing(line));
    } else if k == 2 {
        let line = "|  [2] openai      - GPT-4o                           |\n"@;
        reveal_strlit("|  [2] openai      - GPT-4o                           |\n");
        let p = seq!['['] + decimal(2) + "] "@ + "openai"@;
        assert(line =~= line.take(3) + p + line.skip(13));
        law_inserted_is_found(line.take(3), p, line.skip(13));
        assert(s[7] == showing(line));
    } else if k == 3 {
        let head = "|  [3] anthropic   - "@;
        reveal_strlit("|  [3] anthropic   - ");
        let tail = pad_right(label, 33) + "|\n"@;
        let line = head + pad_right(label, 33) + "|\n"@;
        let p = seq!['['] + decimal(3) + "] "@ + "anthropic"@;
        assert(line =~= head.take(3) + p + (head.skip(16) + tail));
        law_inserted_is_found(head.take(3), p, head.skip(16) + tail);
        assert(s[8] == showing(line));
    } else if k == 4 {
        let line = "|  [4] gemini      - Gemini 2.0 Flash                 |\n"@;
        reveal_strlit("|  [4] gemini      - Gemini 2.0 Flash                 |\n");
        let p = seq!['['] + decimal(4) + "] "@ + "gemini"@;
        assert(line =~= line.take(3) + p + line.skip(13));
        law_inserted_is_found(line.take(3), p, line.skip(13));
        assert(s[9] == showing(line));
    } else {
        let line = "|  [5] custom      - your own endpoint                |\n"@;
        reveal_strlit("|  [5] custom      - your own endpoint                |\n");
        let p = seq!['['] + decimal(5) + "] "@ + "custom"@;
        assert(line =~= line.take(3) + p + line.skip(13));
        law_inserted_is_found(line.take(3), p, line.skip(13));
        assert(s[10] == showing(line));
    }
}

/// Bytes behind a type are split from it.
proof fn lemma_rest(t: Seq<u8>, rest: Seq<u8>)
    requires
        t.len() < 0x1_0000,
    ensures
        framed_rest(length_bytes(t.len() as int) + t + rest) == Some((t, rest)),
{
    let b = length_bytes(t.len() as int) + t + rest;
    let n = t.len() as int;
    assert(b[0] == (n % 256) as u8 && b[1] == (n / 256) as u8);
    assert(length_at(b, 0) == n);
    assert(b.subrange(2, 2 + n) =~= t);
    assert(b.subrange(2 + n, b.len() as int) =~= rest);
}

/// A frame whose type is written with its length, and behind it what it carries.
pub open spec fn key_frame(t: Seq<char>, rest: Seq<u8>) -> Seq<u8> {
    length_bytes(encode_utf8(t).len() as int) + encode_utf8(t) + rest
}

/// A key that is printable joins the line and is shown, as a star while a secret is
/// entered; Backspace takes the last one away; Enter sends the line. A secret, or a plain
/// line, is entered when it is asked for.
pub proof fn law_input(s: InputView, key: u8, t: Seq<char>, rest: Seq<u8>)
    requires
        encode_utf8(t).len() < 0x1_0000,
    ensures
        t == "input.char"@ && rest.len() > 0 && rest[0] == key ==> {
            let after = entered(s, key_frame(t, rest));
            &&& after.0.chars_typed as int == (s.chars_typed + 1) % 0x1_0000_0000
            &&& 32 <= key <= 126 && s.line.len() < 512 ==> {
                &&& after.0.line == s.line.push(key)
                &&& after.0.secret_mode == s.secret_mode
                &&& after.1[0] == sending("display.print"@, seq![if s.secret_mode { '*' as u8 } else { key }])
            }
            &&& (key == 8 || key == 127) && s.line.len() > 0 ==> after.0.line == s.line.drop_last() && after.0.secret_mode
                == s.secret_mode
            &&& key == 10 || key == 13 ==> {
                &&& after.0.line.len() == 0
                &&& !after.0.secret_mode
                &&& s.secret_mode ==> after.1[0] == sending("input.secret.response"@, s.line)
                &&& !s.secret_mode ==> after.1[0] == sending("input.line"@, s.line)
            }
        },
        t == "input.request_secret"@ ==> entered(s, key_frame(t, rest)).0.secret_mode,
        t == "input.request_line"@ ==> !entered(s, key_frame(t, rest)).0.secret_mode,
        t == "input.request_secret"@ || t == "input.request_line"@ ==> entered(s, key_frame(t, rest)).0.line == s.line,
        t != "input.char"@ && t != "input.request_secret"@ && t != "input.request_line"@ ==> entered(
            s,
            key_frame(t, rest),
        ) == (s, Seq::<HostView>::empty()),
{
    lemma_rest(encode_utf8(t), rest);
    law_count_grows(s.chars_typed);
    reveal_strlit("input.char");
    reveal_strlit("input.request_secret");
    reveal_strlit("input.request_line");
    assert("input.char"@.len() == 10);
    assert("input.request_secret"@.len() == 20);
    assert("input.request_line"@.len() == 18);
    lemma_bytes_differ("input.request_secret"@, "input.char"@);
    lemma_bytes_differ("input.request_line"@, "input.char"@);
    lemma_bytes_differ("input.request_line"@, "input.request_secret"@);
    if t != "input.char"@ {
        lemma_bytes_differ(t, "input.char"@);
    }
    if t != "input.request_secret"@ {
        lemma_bytes_differ(t, "input.request_secret"@);
    }
    if t != "input.request_line"@ {
        lemma_bytes_differ(t, "input.request_line"@);
    }
}

} // verus!
