//! What holds of the store as a whole.

use vstd::prelude::*;

use crate::glass_box::state::{
    lemma_oldest_index, new_module, oldest_index, store_wf, updated, with_room, written, SnapshotView, StateValueView,
    StoreView, MAX_ENTRIES_PER_MODULE, MAX_KEY_LEN, MAX_VAL_LEN,
};
use crate::text::first_chars;
use crate::text_map::{has_key, key_rank, keys_ordered, law_get_after_put, lemma_rank_of_entry, map_get};

verus! {

/// What a module publishes is seen at once, cut to the lengths of keys and values, with
/// the time of the update; and no other module changes.
pub proof fn law_update_is_seen(
    store: StoreView,
    now_ms: u64,
    module: Seq<char>,
    key: Seq<char>,
    value: Seq<char>,
    other: Seq<char>,
)
    requires
        store_wf(store),
    ensures
        map_get(updated(store, now_ms, module, key, value), module) matches Some(snap) && {
            &&& snap.last_update_ms == now_ms
            &&& map_get(snap.state, first_chars(key, MAX_KEY_LEN as int)) == Some(
                StateValueView { value: first_chars(value, MAX_VAL_LEN as int), updated_at_ms: now_ms },
            )
        },
        other != module ==> map_get(updated(store, now_ms, module, key, value), other) == map_get(store, other),
{
    let snap = match map_get(store, module) {
        Some(s) => s,
        None => new_module(module, now_ms),
    };
    crate::text_map::lemma_rank(store, module);
    if has_key(store, module) {
        assert(store[key_rank(store, module)].1 == snap);
    }
    law_get_after_put(store, module, written(snap, now_ms, key, value), other);
    let k = first_chars(key, MAX_KEY_LEN as int);
    let v = StateValueView { value: first_chars(value, MAX_VAL_LEN as int), updated_at_ms: now_ms };
    lemma_room_ordered(snap, k);
    law_get_after_put(with_room(snap.state, k), k, v, k);
}

/// Making room keeps the order of keys.
proof fn lemma_room_ordered(snap: SnapshotView, k: Seq<char>)
    requires
        keys_ordered(snap.state),
    ensures
        keys_ordered(with_room(snap.state, k)),
{
    if snap.state.len() >= MAX_ENTRIES_PER_MODULE && !has_key(snap.state, k) {
        let p = oldest_index(snap.state);
        lemma_oldest_index(snap.state);
        let room = with_room(snap.state, k);
        assert forall|i: int, j: int| 0 <= i < j < room.len() implies crate::text::text_less(
            #[trigger] room[i].0,
            #[trigger] room[j].0,
        ) by {
            let a = if i < p { i } else { i + 1 };
            let b = if j < p { j } else { j + 1 };
            assert(room[i] == snap.state[a] && room[j] == snap.state[b]);
        }
    }
}

/// An update drops at most one entry of its module: an entry under another key stays,
/// unless all places are taken, the key is new, and no other entry is older.
pub proof fn law_only_the_oldest_leaves(
    snap: SnapshotView,
    now_ms: u64,
    key: Seq<char>,
    value: Seq<char>,
    i: int,
)
    requires
        keys_ordered(snap.state),
        0 <= i < snap.state.len(),
        snap.state[i].0 != first_chars(key, MAX_KEY_LEN as int),
    ensures
        ({
            let after = written(snap, now_ms, key, value).state;
            let stays = map_get(after, snap.state[i].0) == Some(snap.state[i].1);
            let evicts = snap.state.len() >= MAX_ENTRIES_PER_MODULE && !has_key(
                snap.state,
                first_chars(key, MAX_KEY_LEN as int),
            );
            stays || (evicts && i == oldest_index(snap.state) && forall|j: int|
                0 <= j < snap.state.len() ==> snap.state[i].1.updated_at_ms <= (#[trigger] snap.state[j]).1.updated_at_ms)
        }),
{
    let k = first_chars(key, MAX_KEY_LEN as int);
    let v = StateValueView { value: first_chars(value, MAX_VAL_LEN as int), updated_at_ms: now_ms };
    let room = with_room(snap.state, k);
    let p = oldest_index(snap.state);
    lemma_oldest_index(snap.state);
    lemma_room_ordered(snap, k);
    law_get_after_put(room, k, v, snap.state[i].0);
    if snap.state.len() >= MAX_ENTRIES_PER_MODULE && !has_key(snap.state, k) {
        if i != p {
            let at = if i < p { i } else { i - 1 };
            assert(room[at] == snap.state[i]);
            lemma_rank_of_entry(room, at);
        }
    } else {
        lemma_rank_of_entry(room, i);
    }
}

} // verus!
