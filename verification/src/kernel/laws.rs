//! What holds of the screen, the keyboard, the interrupt lines and the memory map, and of
//! what the components hear.

use vstd::prelude::*;

use crate::intent_bus::bus::{any_matches, BusState};
use crate::intent_bus::intent::{type_matches, IntentPriority};
use crate::kernel::agents::keyboard_bridge::{key_intent, typed};
use crate::kernel::boot::{at_tick, listens_to, Component};
use crate::kernel::display::{blended, drawn, drawn_glyph, font_glyph, mix, ScreenView};
use crate::kernel::drivers::keyboard::buffered;
use crate::kernel::interrupts::ioapic::{entry_writes, mask_writes, masked_lines};
use crate::kernel::memory::pmm::{
    bitmap_frames, first_frame, frames_below, highest_end, is_usable, next_free, MemoryRegion,
};
use crate::system::SystemView;

verus! {

// ---------------------------------------------------------------------------
// The screen
// ---------------------------------------------------------------------------

/// The color of a pixel that a character's picture covers: the background where it is
/// empty, the foreground where it is full.
pub proof fn law_colors_are_mixed(bg: u32, fg: u32, alpha: u8)
    requires
        bg <= 0xff_ffff,
        fg <= 0xff_ffff,
    ensures
        alpha == 0 ==> blended(bg, fg, alpha) == bg,
        alpha == 255 ==> blended(bg, fg, alpha) == fg,
        bg == fg ==> blended(bg, fg, alpha) == bg,
        bg as int % 0x100 <= fg as int % 0x100 ==> bg as int % 0x100 <= blended(bg, fg, alpha) % 0x100 <= fg as int % 0x100,
        bg as int / 0x1_0000 <= fg as int / 0x1_0000 ==> bg as int / 0x1_0000 <= blended(bg, fg, alpha) / 0x1_0000
            <= fg as int / 0x1_0000,
{
    let a = alpha as int;
    let fr = fg as int / 0x1_0000 % 0x100;
    let br = bg as int / 0x1_0000 % 0x100;
    let fg_ = fg as int / 0x100 % 0x100;
    let bg_ = bg as int / 0x100 % 0x100;
    let fb = fg as int % 0x100;
    let bb = bg as int % 0x100;
    lemma_mix(fr, br, a);
    lemma_mix(fg_, bg_, a);
    lemma_mix(fb, bb, a);
    assert(bg == br * 0x1_0000 + bg_ * 0x100 + bb);
    assert(fg == fr * 0x1_0000 + fg_ * 0x100 + fb);
    if 0 < a < 255 {
        let r = mix(fr, br, a);
        let g = mix(fg_, bg_, a);
        let b = mix(fb, bb, a);
        let m = blended(bg, fg, alpha);
        assert(m == r * 0x1_0000 + g * 0x100 + b);
        assert(m % 0x100 == b && m / 0x1_0000 == r);
    }
}

proof fn lemma_mix(f: int, b: int, a: int)
    requires
        0 <= f < 0x100,
        0 <= b < 0x100,
        0 <= a <= 255,
    ensures
        0 <= mix(f, b, a) < 0x100,
        f == b ==> mix(f, b, a) == b,
        b <= f ==> b <= mix(f, b, a) <= f,
{
    let s = f * a + b * (255 - a);
    assert(0 <= s <= 255 * 255) by (nonlinear_arith)
        requires
            0 <= f <= 255,
            0 <= b <= 255,
            0 <= a <= 255,
            s == f * a + b * (255 - a),
    ;
    if b <= f {
        assert(255 * b <= s <= 255 * f) by (nonlinear_arith)
            requires
                b <= f,
                0 <= a <= 255,
                s == f * a + b * (255 - a),
        ;
    }
}

/// A character is drawn at the cursor, in a cell of seven by sixteen pixels, and the cursor
/// moves to the next cell; no pixel outside the character's picture changes, as long as the
/// line has room.
pub proof fn law_character_is_drawn(s: ScreenView, c: char, g: Seq<Seq<u8>>, x: int, y: int)
    requires
        s.wf(),
        c != '\n',
        font_glyph(c) == Some(g),
        s.cursor_x + 1 < s.width / 7,
        0 <= y < s.height,
        0 <= x < s.width,
    ensures
        ({
            let t = s.typed(c);
            let left = s.cursor_x * 7;
            let top = s.cursor_y * 16;
            let inside = top <= y < top + g.len() && left <= x < left + g[y - top].len();
            &&& t.cursor_x == s.cursor_x + 1
            &&& t.cursor_y == s.cursor_y
            &&& !inside ==> t.rows[y][x] == s.rows[y][x]
            &&& inside && g[y - top][x - left] == 0 ==> t.rows[y][x] == 0x10_1018
            &&& inside && g[y - top][x - left] == 255 ==> t.rows[y][x] == 0xe8_e8e8
        }),
{
    assert(s.rows[y].len() == s.width);
}

/// A character that the font lacks is drawn as a question mark.
pub proof fn law_unknown_character(s: ScreenView, c: char)
    requires
        c != '\n',
        font_glyph(c) is None,
    ensures
        s.typed(c) == s.typed('?'),
{
}

/// A line end moves the cursor to the start of the next line; on the last line the picture
/// moves up by one line of text instead, and what comes in at the bottom is background.
pub proof fn law_line_end(s: ScreenView, x: int, y: int)
    requires
        s.wf(),
        0 <= y < s.height,
        0 <= x < s.width,
    ensures
        ({
            let t = s.typed('\n');
            let last = s.cursor_y + 1 >= s.height / 16;
            &&& t.cursor_x == 0
            &&& !last ==> t.cursor_y == s.cursor_y + 1 && t.rows == s.rows
            &&& last ==> t.cursor_y == s.cursor_y
            &&& last && y + 16 < s.height ==> t.rows[y][x] == s.rows[y + 16][x]
            &&& last && y + 16 >= s.height ==> t.rows[y][x] == 0x10_1018
        }),
{
    let t = s.typed('\n');
    if s.cursor_y + 1 >= s.height / 16 {
        assert(s.rows.skip(16).len() == s.height - 16);
    }
}

/// A full line goes on in the next one.
pub proof fn law_full_line_wraps(s: ScreenView, c: char)
    requires
        s.wf(),
        c != '\n',
        drawn_glyph(c) is Some,
        s.cursor_x + 1 >= s.width / 7,
    ensures
        s.typed(c).cursor_x == 0,
        s.cursor_y + 1 < s.height / 16 ==> s.typed(c).cursor_y == s.cursor_y + 1,
{
}

// ---------------------------------------------------------------------------
// The keyboard
// ---------------------------------------------------------------------------

/// Characters wait in the order in which they were typed; what does not fit is dropped, and
/// what waits stays.
pub proof fn law_keys_wait_in_order(buffer: Seq<char>, c: char)
    ensures
        buffer.len() < 256 ==> buffered(buffer, Some(c)) == buffer.push(c),
        buffer.len() >= 256 ==> buffered(buffer, Some(c)) == buffer,
        buffered(buffer, None) == buffer,
{
}

/// Keys are sent one after the other, each as an urgent intent that carries its byte.
pub proof fn law_keys_are_sent_in_order(bus: BusState, name: Seq<char>, a: Seq<char>, b: Seq<char>)
    ensures
        typed(bus, name, a + b) == typed(typed(bus, name, a), name, b),
        a.len() == 1 ==> typed(bus, name, a) == bus.sent_by(name, key_intent(a[0])),
        a.len() == 1 && '\u{80}' > a[0] ==> {
            &&& key_intent(a[0]).payload == seq![a[0] as u8]
            &&& key_intent(a[0]).semantic_type == "input.char"@
            &&& key_intent(a[0]).priority == IntentPriority::High
        },
    decreases a.len(),
{
    if a.len() == 0 {
        assert(a + b =~= b);
    } else {
        law_keys_are_sent_in_order(bus.sent_by(name, key_intent(a[0])), name, a.skip(1), b);
        assert((a + b).skip(1) =~= a.skip(1) + b);
        assert((a + b)[0] == a[0]);
        if a.len() == 1 {
            assert(a.skip(1) =~= Seq::empty());
        }
    }
}

// ---------------------------------------------------------------------------
// Interrupt lines
// ---------------------------------------------------------------------------

/// What a register holds after the writes: the last value that was written to it.
pub open spec fn value_after(writes: Seq<(u32, u32)>, register: u32) -> Option<u32>
    decreases writes.len(),
{
    if writes.len() == 0 {
        None
    } else if writes.last().0 == register {
        Some(writes.last().1)
    } else {
        value_after(writes.drop_last(), register)
    }
}

proof fn lemma_value_append(a: Seq<(u32, u32)>, b: Seq<(u32, u32)>, register: u32)
    ensures
        value_after(a + b, register) == match value_after(b, register) {
            Some(v) => Some(v),
            None => value_after(a, register),
        },
    decreases b.len(),
{
    if b.len() == 0 {
        assert(a + b =~= a);
    } else {
        assert((a + b).drop_last() =~= a + b.drop_last());
        assert((a + b).last() == b.last());
        lemma_value_append(a, b.drop_last(), register);
    }
}

proof fn lemma_entry(irq: u8, entry: u64, register: u32)
    requires
        entry < 0x1_0000_0000,
    ensures
        value_after(entry_writes(irq, entry), register) == if register == 16 + irq * 2 {
            Some(entry as u32)
        } else if register == 17 + irq * 2 {
            Some(0u32)
        } else {
            None
        },
{
    let w = entry_writes(irq, entry);
    let first = w.drop_last();
    assert(first.drop_last() =~= Seq::empty());
    assert(first.last() == w[0]);
    assert(w.last() == w[1]);
    reveal_with_fuel(value_after, 4);
}

proof fn lemma_masked(n: int, irq: int, register: u32)
    requires
        0 <= n <= 256,
        0 <= irq,
        register == 16 + irq * 2,
    ensures
        value_after(mask_writes(n), register) == if irq < n {
            Some(0x1_0000u32)
        } else {
            None
        },
    decreases n,
{
    if n > 0 {
        lemma_masked(n - 1, irq, register);
        lemma_entry((n - 1) as u8, 0x1_0000, register);
        lemma_value_append(mask_writes(n - 1), entry_writes((n - 1) as u8, 0x1_0000), register);
    }
}

/// After the setup, the keyboard's line leads to vector 0x21 and the network's to 0x22, and
/// every other line of the controller is masked.
pub proof fn law_lines_are_routed(version: u32, irq: u8)
    ensures
        ({
            let program = mask_writes(masked_lines(version)) + entry_writes(1, 0x21) + entry_writes(11, 0x22);
            let low = value_after(program, (16 + irq * 2) as u32);
            &&& irq == 1 ==> low == Some(0x21u32)
            &&& irq == 11 ==> low == Some(0x22u32)
            &&& irq != 1 && irq != 11 && irq <= version as int / 0x1_0000 % 0x100 ==> low == Some(0x1_0000u32)
        }),
{
    let n = masked_lines(version);
    let register = (16 + irq * 2) as u32;
    lemma_masked(n, irq as int, register);
    lemma_entry(1, 0x21, register);
    lemma_entry(11, 0x22, register);
    lemma_value_append(mask_writes(n), entry_writes(1, 0x21), register);
    lemma_value_append(mask_writes(n) + entry_writes(1, 0x21), entry_writes(11, 0x22), register);
}

// ---------------------------------------------------------------------------
// The memory map
// ---------------------------------------------------------------------------

/// A frame can be used exactly when it lies in a usable region, where regions begin and end
/// with a frame.
pub proof fn law_usable_frames(regions: Seq<MemoryRegion>, frame: int)
    requires
        forall|i: int|
            0 <= i < regions.len() ==> (#[trigger] regions[i]).base % 4096 == 0 && regions[i].length % 4096 == 0,
    ensures
        is_usable(regions, frame) <==> exists|i: int|
            0 <= i < regions.len() && (#[trigger] regions[i]).usable && regions[i].base <= frame * 4096 && (frame + 1)
                * 4096 <= regions[i].base + regions[i].length,
{
    if is_usable(regions, frame) {
        let i = choose|i: int|
            0 <= i < regions.len() && (#[trigger] regions[i]).usable && first_frame(regions[i]) <= frame
                < crate::kernel::memory::pmm::end_frame(regions[i]);
        assert(regions[i].base % 4096 == 0 && regions[i].length % 4096 == 0);
        assert(regions[i].base <= frame * 4096 && (frame + 1) * 4096 <= regions[i].base + regions[i].length);
    }
    if exists|i: int|
        0 <= i < regions.len() && (#[trigger] regions[i]).usable && regions[i].base <= frame * 4096 && (frame + 1) * 4096
            <= regions[i].base + regions[i].length {
        let i = choose|i: int|
            0 <= i < regions.len() && (#[trigger] regions[i]).usable && regions[i].base <= frame * 4096 && (frame + 1)
                * 4096 <= regions[i].base + regions[i].length;
        assert(first_frame(regions[i]) <= frame < crate::kernel::memory::pmm::end_frame(regions[i]));
    }
}

/// Every address of every region lies in one of the frames that are counted, and the bitmap
/// has room for all of them.
pub proof fn law_all_frames_are_counted(regions: Seq<MemoryRegion>, i: int, address: int)
    requires
        0 <= i < regions.len(),
        regions[i].base <= address < regions[i].base + regions[i].length,
    ensures
        address / 4096 < frames_below(highest_end(regions)),
        bitmap_frames(frames_below(highest_end(regions))) * 4096 * 8 >= frames_below(highest_end(regions)),
    decreases regions.len(),
{
    lemma_highest_end(regions, i);
}

proof fn lemma_highest_end(regions: Seq<MemoryRegion>, i: int)
    requires
        0 <= i < regions.len(),
    ensures
        regions[i].base + regions[i].length <= highest_end(regions),
        0 <= highest_end(regions),
    decreases regions.len(),
{
    if i < regions.len() - 1 {
        lemma_highest_end(regions.drop_last(), i);
    } else {
        lemma_end_nonneg(regions.drop_last());
    }
}

proof fn lemma_end_nonneg(regions: Seq<MemoryRegion>)
    ensures
        0 <= highest_end(regions),
    decreases regions.len(),
{
    if regions.len() > 0 {
        lemma_end_nonneg(regions.drop_last());
    }
}

/// The frame that is handed out is the first free one from the hint on: none between them
/// is free.
pub proof fn law_nearest_frame_is_taken(used: Seq<bool>, start: int, k: int)
    requires
        0 <= start < used.len(),
        next_free(used, start, 0) is Some,
        0 <= k < used.len(),
        !used[(start + k) % (used.len() as int)],
    ensures
        exists|j: int|
            0 <= j <= k && next_free(used, start, 0) == Some(#[trigger] ((start + j) % (used.len() as int))),
{
    let j = lemma_nearest(used, start, 0, k);
    assert(next_free(used, start, 0) == Some((start + j) % (used.len() as int)));
}

proof fn lemma_nearest(used: Seq<bool>, start: int, i: int, k: int) -> (j: int)
    requires
        0 <= start < used.len(),
        0 <= i <= k < used.len(),
        !used[(start + k) % (used.len() as int)],
    ensures
        i <= j <= k,
        next_free(used, start, i) == Some((start + j) % (used.len() as int)),
    decreases k - i,
{
    if !used[(start + i) % (used.len() as int)] {
        i
    } else {
        lemma_nearest(used, start, i + 1, k)
    }
}

// ---------------------------------------------------------------------------
// Components
// ---------------------------------------------------------------------------

/// A tick takes ten milliseconds, and nothing but the time changes with it.
pub proof fn law_tick_takes_ten_milliseconds(sys: SystemView, tick: u64)
    requires
        tick * 10 <= u64::MAX,
    ensures
        at_tick(sys, tick).bus.now_ms == tick * 10,
        at_tick(sys, tick).bus.subscribers == sys.bus.subscribers,
        at_tick(sys, tick).bus.audit == sys.bus.audit,
        at_tick(sys, tick).glass_box == sys.glass_box,
{
}

/// Requests are heard by the component that serves them.
pub proof fn law_requests_are_heard()
    ensures
        any_matches("glass-box.update"@, listens_to(Component::GlassBox)),
        any_matches("glass-box.module.stopped"@, listens_to(Component::GlassBox)),
        any_matches("system.heartbeat"@, listens_to(Component::Echo)),
        any_matches("network.http.post"@, listens_to(Component::Network)),
        any_matches("inference.generate"@, listens_to(Component::Inference)),
        any_matches("settings.set"@, listens_to(Component::SettingsHandler)),
        any_matches("input.secret.response"@, listens_to(Component::SettingsHandler)),
        any_matches("settings.open"@, listens_to(Component::SettingsModule)),
        any_matches("input.char"@, listens_to(Component::SettingsModule)),
        any_matches("input.char"@, listens_to(Component::InputModule)),
        any_matches("input.request_secret"@, listens_to(Component::InputModule)),
        any_matches("input.request_line"@, listens_to(Component::InputModule)),
        any_matches("display.print"@, listens_to(Component::DisplayModule)),
        any_matches("display.clear"@, listens_to(Component::DisplayModule)),
        any_matches("display.prompt"@, listens_to(Component::DisplayModule)),
        any_matches("storage.store"@, listens_to(Component::StorageModule)),
        any_matches("storage.retrieve"@, listens_to(Component::StorageModule)),
        any_matches("input.line"@, listens_to(Component::PrimaryAgent)),
        any_matches("system.status"@, listens_to(Component::PrimaryAgent)),
        any_matches("settings.closed"@, listens_to(Component::PrimaryAgent)),
{
    assert(type_matches("glass-box.update"@, listens_to(Component::GlassBox)[0]));
    assert(type_matches("glass-box.module.stopped"@, listens_to(Component::GlassBox)[1]));
    assert(type_matches("system.heartbeat"@, listens_to(Component::Echo)[0]));
    assert(type_matches("network.http.post"@, listens_to(Component::Network)[0]));
    assert(type_matches("inference.generate"@, listens_to(Component::Inference)[0]));
    assert(type_matches("settings.set"@, listens_to(Component::SettingsHandler)[0]));
    assert(type_matches("input.secret.response"@, listens_to(Component::SettingsHandler)[1]));
    assert(type_matches("settings.open"@, listens_to(Component::SettingsModule)[0]));
    assert(type_matches("input.char"@, listens_to(Component::SettingsModule)[1]));
    assert(type_matches("input.char"@, listens_to(Component::InputModule)[0]));
    assert(type_matches("input.request_secret"@, listens_to(Component::InputModule)[1]));
    assert(type_matches("input.request_line"@, listens_to(Component::InputModule)[2]));
    assert(type_matches("display.print"@, listens_to(Component::DisplayModule)[0]));
    assert(type_matches("display.clear"@, listens_to(Component::DisplayModule)[1]));
    assert(type_matches("display.prompt"@, listens_to(Component::DisplayModule)[2]));
    assert(type_matches("storage.store"@, listens_to(Component::StorageModule)[0]));
    assert(type_matches("storage.retrieve"@, listens_to(Component::StorageModule)[1]));
    assert(type_matches("input.line"@, listens_to(Component::PrimaryAgent)[0]));
    assert(type_matches("system.status"@, listens_to(Component::PrimaryAgent)[2]));
    assert(type_matches("settings.closed"@, listens_to(Component::PrimaryAgent)[3]));
}

} // verus!
