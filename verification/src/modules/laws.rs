//! What holds between the modules and the agents that listen to them.

use vstd::prelude::*;
use vstd::utf8::*;

use crate::intent_bus::intent::IntentView;
use crate::kernel::agents::settings_handler::change_of;
use crate::modules::input::printable;
use crate::modules::settings::sets;
use crate::system::SettingsChangeView;
use crate::text::{find, lemma_find_from, occurs_at};

verus! {

/// The bytes of a joined text are the bytes of its parts.
proof fn lemma_encode_concat(a: Seq<char>, b: Seq<char>)
    ensures
        encode_utf8(a + b) == encode_utf8(a) + encode_utf8(b),
    decreases a.len(),
{
    if a.len() == 0 {
        assert(a + b =~= b);
        assert(encode_utf8(a) + encode_utf8(b) =~= encode_utf8(b));
    } else {
        lemma_encode_concat(a.drop_first(), b);
        assert((a + b).drop_first() =~= a.drop_first() + b);
        assert(encode_utf8(a + b) =~= encode_utf8(a) + encode_utf8(b));
    }
}

/// The first zero of bytes is the one with no zero before it.
proof fn lemma_first_zero(p: Seq<u8>, i: int)
    requires
        0 <= i < p.len(),
        p[i] == 0,
        forall|j: int| 0 <= j < i ==> #[trigger] p[j] != 0,
    ensures
        find(p, seq![0u8]) == Some(i),
{
    lemma_find_from(p, seq![0u8], 0);
    assert(p.subrange(i, i + 1) =~= seq![0u8]);
    assert(occurs_at(p, seq![0u8], i));
    match find(p, seq![0u8]) {
        Some(q) => {
            assert(p.subrange(q, q + 1)[0] == p[q]);
        },
        None => {},
    }
}

/// A setting that the settings module changes arrives at the settings handler as it was
/// chosen, for every key of ASCII characters other than zero.
pub proof fn law_choice_reaches_the_handler(intent: IntentView, key: Seq<char>, value: Seq<char>)
    requires
        is_ascii_chars(key),
        forall|i: int| 0 <= i < key.len() ==> #[trigger] key[i] != '\0',
        sets(key, value)->intent_type == intent.semantic_type,
        sets(key, value)->payload == intent.payload,
    ensures
        change_of(intent) == Some(SettingsChangeView::Value { key, value }),
{
    reveal_strlit("\0");
    let k = encode_utf8(key);
    let v = encode_utf8(value);
    let zero = "\0"@;
    assert(is_ascii_chars(zero));
    is_ascii_chars_encode_utf8(key);
    is_ascii_chars_encode_utf8(zero);
    lemma_encode_concat(key + zero, value);
    lemma_encode_concat(key, zero);
    let p = intent.payload;
    assert(p == k + encode_utf8(zero) + v);
    assert(p[k.len() as int] == 0);
    assert forall|j: int| 0 <= j < k.len() implies #[trigger] p[j] != 0 by {
        assert(p[j] == k[j]);
        assert(key[j] != '\0');
    }
    lemma_first_zero(p, k.len() as int);
    assert(p.take(k.len() as int) =~= k);
    assert(p.skip(k.len() as int + 1) =~= v);
    encode_utf8_valid_utf8(key);
    encode_utf8_valid_utf8(value);
    encode_utf8_decode_utf8(key);
    encode_utf8_decode_utf8(value);
}

/// The characters of typed bytes.
pub open spec fn typed_text(line: Seq<u8>) -> Seq<char> {
    line.map_values(|b: u8| b as char)
}

/// A secret that was typed arrives at the settings handler as it was typed.
pub proof fn law_secret_reaches_the_handler(intent: IntentView, line: Seq<u8>)
    requires
        line.len() > 0,
        forall|i: int| 0 <= i < line.len() ==> printable(#[trigger] line[i]),
        intent.semantic_type == "input.secret.response"@,
        intent.payload == line,
    ensures
        change_of(intent) == Some(SettingsChangeView::ApiKey(typed_text(line))),
{
    reveal_strlit("input.secret.response");
    reveal_strlit("settings.set");
    assert("input.secret.response"@.len() != "settings.set"@.len());
    let s = typed_text(line);
    assert forall|i: int| 0 <= i < s.len() implies '\0' <= #[trigger] s[i] <= '\u{7f}' by {
        assert(printable(line[i]));
    }
    assert(is_ascii_chars(s));
    is_ascii_chars_encode_utf8(s);
    assert(encode_utf8(s) =~= line) by {
        assert forall|i: int| 0 <= i < line.len() implies encode_utf8(s)[i] == line[i] by {
            assert(printable(line[i]));
            assert(s[i] == line[i] as char);
        }
    }
    encode_utf8_valid_utf8(s);
    encode_utf8_decode_utf8(s);
}

} // verus!
