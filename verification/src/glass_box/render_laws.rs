//! What the rendered box shows, and what becomes of published state.

use vstd::prelude::*;

use crate::glass_box::agent::{applied, applied_all, modules_of, GlassBoxAgent};
use crate::glass_box::display::{
    boxed, entry_line, entry_lines, header_line, module_lines, more_line, ms_since, pad_left, pad_right, rendered, spaces,
};
use crate::glass_box::laws::law_update_is_seen;
use crate::glass_box::state::{store_wf, updated, SnapshotView, StateValueView, StateView, StoreView};
use crate::intent_bus::intent::IntentView;
use crate::intent_bus::payloads::{GlassBoxUpdate, GlassBoxUpdateView, Payload};
use crate::text::{contains, decimal, find, first_chars};
use crate::text_laws::{law_found_divides, law_inserted_is_found, law_part_is_found};
use crate::text_map::{law_get_after_del, map_get};

verus! {

proof fn lemma_part_of_part(whole: Seq<char>, part: Seq<char>, pat: Seq<char>)
    requires
        contains(whole, part),
        contains(part, pat),
    ensures
        contains(whole, pat),
{
    law_found_divides(whole, part);
    let i = find(whole, part)->0;
    law_part_is_found(whole.take(i), part, whole.skip(i + part.len()), pat);
}

/// How many of a module's entries are shown where there is room: no more than four.
pub open spec fn at_most_four(count: nat) -> int {
    if count < 4 {
        count as int
    } else {
        4
    }
}

/// Where there is room for all, the lines of a module stand in the box.
proof fn lemma_module_shown(snaps: Seq<SnapshotView>, i: int, lines: int, max_lines: int, now_ms: u64, j: int)
    requires
        0 <= i <= j < snaps.len(),
        lines >= 0,
        lines + 5 * (snaps.len() - i) <= max_lines - 2,
    ensures
        contains(
            module_lines(snaps, i, lines, max_lines, now_ms),
            header_line(snaps[j], now_ms) + entry_lines(snaps[j].state, at_most_four(snaps[j].state.len())),
        ),
    decreases snaps.len() - i,
{
    let n = at_most_four(snaps[i].state.len());
    let head = header_line(snaps[i], now_ms) + entry_lines(snaps[i].state, n);
    let e = Seq::<char>::empty();
    let rest = module_lines(snaps, i + 1, lines + 1 + n, max_lines, now_ms);
    assert(module_lines(snaps, i, lines, max_lines, now_ms) == head + rest);
    if i == j {
        assert(head + rest =~= e + head + rest);
        law_inserted_is_found(e, head, rest);
    } else {
        lemma_module_shown(snaps, i + 1, lines + 1 + n, max_lines, now_ms, j);
        let want = header_line(snaps[j], now_ms) + entry_lines(snaps[j].state, at_most_four(snaps[j].state.len()));
        assert(head + rest =~= head + rest + e);
        law_part_is_found(head, rest, e, want);
    }
}

proof fn lemma_entry_shown(state: StateView, n: int, k: int)
    requires
        0 <= k < n <= state.len(),
    ensures
        contains(entry_lines(state, n), entry_line(state[k].0, state[k].1.value)),
    decreases n,
{
    let before = entry_lines(state, n - 1);
    let last = entry_line(state[n - 1].0, state[n - 1].1.value);
    let e = Seq::<char>::empty();
    if k == n - 1 {
        assert(entry_lines(state, n) =~= before + last + e);
        law_inserted_is_found(before, last, e);
    } else {
        lemma_entry_shown(state, n - 1, k);
        assert(entry_lines(state, n) =~= e + before + last);
        law_part_is_found(e, before, last, entry_line(state[k].0, state[k].1.value));
    }
}

/// Where the box has room, every module shows in it: its name behind a full circle while
/// it runs, behind an empty one when it has stopped, and how long ago it last wrote.
pub proof fn law_modules_are_shown(snaps: Seq<SnapshotView>, max_lines: int, now_ms: u64, j: int)
    requires
        0 <= j < snaps.len(),
        5 * snaps.len() + 3 <= max_lines,
    ensures
        snaps[j].is_active ==> contains(
            rendered(snaps, max_lines, now_ms),
            seq!['\u{25cf}', ' '] + first_chars(snaps[j].name, 20),
        ),
        !snaps[j].is_active ==> contains(
            rendered(snaps, max_lines, now_ms),
            seq!['\u{25cb}', ' '] + first_chars(snaps[j].name, 20),
        ),
        now_ms >= snaps[j].last_update_ms ==> contains(
            rendered(snaps, max_lines, now_ms),
            decimal((now_ms - snaps[j].last_update_ms) as nat) + "ms ago"@,
        ),
{
    let s = snaps[j];
    let all = rendered(snaps, max_lines, now_ms);
    let header = header_line(s, now_ms);
    lemma_header_in_box(snaps, max_lines, now_ms, j);
    reveal_strlit(" ");
    let circle = if s.is_active {
        '\u{25cf}'
    } else {
        '\u{25cb}'
    };
    let name = first_chars(s.name, 20);
    let mark = seq![circle, ' '] + name;
    let since = decimal(ms_since(now_ms, s.last_update_ms));
    let bar = "\u{2502} "@;
    let inside = (bar.push(circle) + " "@) + pad_right(name, 20) + " "@ + pad_left(since, 8) + "ms ago"@;
    let pad = spaces(20 - name.len());
    let tail = pad + " "@ + pad_left(since, 8) + "ms ago"@;
    assert(inside =~= bar + mark + tail);
    lemma_boxed_holds(inside, bar, mark, tail);
    lemma_part_of_part(all, header, mark);
    let front = (bar.push(circle) + " "@) + pad_right(name, 20) + " "@ + spaces(8 - since.len());
    let age = since + "ms ago"@;
    let e = Seq::<char>::empty();
    assert(inside =~= front + age + e);
    lemma_boxed_holds(inside, front, age, e);
    lemma_part_of_part(all, header, age);
}

/// A line of the box holds what was put into it.
proof fn lemma_boxed_holds(inside: Seq<char>, a: Seq<char>, pat: Seq<char>, b: Seq<char>)
    requires
        inside == a + pat + b,
    ensures
        contains(boxed(inside), pat),
{
    let line = boxed(inside);
    let rest = line.skip(inside.len() as int);
    assert(line =~= a + pat + (b + rest));
    law_inserted_is_found(a, pat, b + rest);
}

proof fn lemma_header_in_box(snaps: Seq<SnapshotView>, max_lines: int, now_ms: u64, j: int)
    requires
        0 <= j < snaps.len(),
        5 * snaps.len() + 3 <= max_lines,
    ensures
        contains(rendered(snaps, max_lines, now_ms), header_line(snaps[j], now_ms)),
        contains(
            rendered(snaps, max_lines, now_ms),
            entry_lines(snaps[j].state, at_most_four(snaps[j].state.len())),
        ),
{
    let all = rendered(snaps, max_lines, now_ms);
    let lines = module_lines(snaps, 0, 1, max_lines, now_ms);
    let header = header_line(snaps[j], now_ms);
    let entries = entry_lines(snaps[j].state, at_most_four(snaps[j].state.len()));
    let e = Seq::<char>::empty();
    lemma_module_shown(snaps, 0, 1, max_lines, now_ms, j);
    law_part_is_found(
        crate::glass_box::display::top_border(),
        lines,
        crate::glass_box::display::bottom_border(),
        header + entries,
    );
    assert(header + entries =~= e + header + entries);
    law_inserted_is_found(e, header, entries);
    lemma_part_of_part(all, header + entries, header);
    assert(header + entries =~= header + entries + e);
    law_inserted_is_found(header, entries, e);
    lemma_part_of_part(all, header + entries, entries);
}

/// Where the box has room, the first four entries of every module show in it, with key and
/// value.
pub proof fn law_entries_are_shown(snaps: Seq<SnapshotView>, max_lines: int, now_ms: u64, j: int, k: int)
    requires
        0 <= j < snaps.len(),
        5 * snaps.len() + 3 <= max_lines,
        0 <= k < snaps[j].state.len(),
        k < 4,
    ensures
        contains(
            rendered(snaps, max_lines, now_ms),
            pad_right(first_chars(snaps[j].state[k].0, 16), 16) + " = "@ + first_chars(snaps[j].state[k].1.value, 24),
        ),
{
    let all = rendered(snaps, max_lines, now_ms);
    let state = snaps[j].state;
    let n = at_most_four(state.len());
    lemma_header_in_box(snaps, max_lines, now_ms, j);
    lemma_entry_shown(state, n, k);
    let line = entry_line(state[k].0, state[k].1.value);
    let shown = pad_right(first_chars(state[k].0, 16), 16) + " = "@ + first_chars(state[k].1.value, 24);
    let bar = "\u{2502}   "@;
    let e = Seq::<char>::empty();
    let inside = bar + pad_right(first_chars(state[k].0, 16), 16) + " = "@ + first_chars(state[k].1.value, 24);
    assert(inside =~= bar + shown + e);
    lemma_boxed_holds(inside, bar, shown, e);
    lemma_part_of_part(entry_lines(state, n), line, shown);
    lemma_part_of_part(all, entry_lines(state, n), shown);
}

/// Where modules do not fit, a line of the box tells how many there are.
pub proof fn law_missing_modules_are_told(snaps: Seq<SnapshotView>, now_ms: u64)
    requires
        snaps.len() > 0,
    ensures
        contains(rendered(snaps, 2, now_ms), decimal(snaps.len()) + " more modules"@),
{
    let e = Seq::<char>::empty();
    let lines = module_lines(snaps, 0, 1, 2, now_ms);
    let told = decimal(snaps.len()) + " more modules"@;
    let a = "\u{2502} ... ("@;
    let b = ") ..."@;
    reveal_strlit(" more modules) ...");
    reveal_strlit(" more modules");
    reveal_strlit(") ...");
    let inside = a + decimal(snaps.len()) + " more modules) ..."@;
    assert(inside =~= a + told + b);
    lemma_boxed_holds(inside, a, told, b);
    assert(lines == more_line(snaps.len()));
    law_part_is_found(
        crate::glass_box::display::top_border(),
        lines,
        crate::glass_box::display::bottom_border(),
        told,
    );
}

// ---------------------------------------------------------------------------
// Published state
// ---------------------------------------------------------------------------

/// What a component publishes over the bus is in the store once the intent was taken in,
/// and a component that tells of its stop is gone.
pub proof fn law_published_state_is_kept(
    store: StoreView,
    now_ms: u64,
    intent: IntentView,
    u: GlassBoxUpdateView,
    name: Seq<char>,
    other: Seq<char>,
)
    requires
        store_wf(store),
    ensures
        intent.semantic_type == "glass-box.update"@ && GlassBoxUpdate::parsed(intent.payload) == Some(u) ==> (map_get(
            applied(store, now_ms, intent),
            u.module,
        ) matches Some(snap) && map_get(snap.state, first_chars(u.key, 64)) == Some(
            StateValueView { value: first_chars(u.value, 256), updated_at_ms: now_ms },
        )),
        intent.semantic_type == "glass-box.module.stopped"@ && String::parsed(intent.payload) == Some(name) ==> {
            &&& map_get(applied(store, now_ms, intent), name) is None
            &&& other != name ==> map_get(applied(store, now_ms, intent), other) == map_get(store, other)
        },
        intent.semantic_type != "glass-box.update"@ && intent.semantic_type != "glass-box.module.stopped"@ ==> applied(
            store,
            now_ms,
            intent,
        ) == store,
{
    reveal_strlit("glass-box.update");
    reveal_strlit("glass-box.module.stopped");
    assert("glass-box.update"@.len() != "glass-box.module.stopped"@.len());
    law_update_is_seen(store, now_ms, u.module, u.key, u.value, other);
    law_get_after_del(store, name, other);
}

/// Intents are taken in one after the other, in their order.
pub proof fn law_intents_are_taken_in_order(store: StoreView, now_ms: u64, a: Seq<IntentView>, b: Seq<IntentView>)
    ensures
        applied_all(store, now_ms, a + b) == applied_all(applied_all(store, now_ms, a), now_ms, b),
        a.len() == 1 ==> applied_all(store, now_ms, a) == applied(store, now_ms, a[0]),
    decreases a.len(),
{
    if a.len() == 0 {
        assert(a + b =~= b);
    } else {
        law_intents_are_taken_in_order(applied(store, now_ms, a[0]), now_ms, a.skip(1), b);
        assert((a + b).skip(1) =~= a.skip(1) + b);
        assert((a + b)[0] == a[0]);
        if a.len() == 1 {
            assert(a.skip(1) =~= Seq::empty());
        }
    }
}

/// The box is rendered every fifty ticks, and only where that is wanted.
pub proof fn law_box_is_rendered_every_fifty_ticks(agent: GlassBoxAgent, tick: u64)
    ensures
        !agent.display_enabled ==> !agent.render_due(tick),
        agent.display_enabled ==> (agent.render_due(tick) <==> tick - agent.render_tick >= 50),
{
}

} // verus!
