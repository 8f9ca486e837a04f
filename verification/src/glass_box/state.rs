//! The state store: a snapshot of key-value entries per module.
//!
//! Each module can have at most 32 entries. When a 33rd key is added, the entry that
//! was written longest ago leaves. Overlong keys and values are cut.

use vstd::prelude::*;

use crate::text::{first_chars, take_chars, text};
use crate::text_map::{
    has_key, key_rank, keys_ordered, lemma_del_ordered, lemma_put_ordered, lemma_rank, map_del, map_get, map_put,
    TextMap,
};
use crate::views::{group_views, views};

verus! {

/// Maximum length of a key; longer keys are cut.
pub const MAX_KEY_LEN: usize = 64;

/// Maximum length of a value; longer values are cut.
pub const MAX_VAL_LEN: usize = 256;

/// Maximum number of entries of one module.
pub const MAX_ENTRIES_PER_MODULE: usize = 32;

/// A state value and the time it was written.
#[derive(Debug)]
pub struct StateValue {
    pub value: String,
    /// When this value was last written (ms since boot).
    pub updated_at_ms: u64,
}

/// What a state value holds.
pub struct StateValueView {
    pub value: Seq<char>,
    pub updated_at_ms: u64,
}

impl View for StateValue {
    type V = StateValueView;

    open spec fn view(&self) -> StateValueView {
        StateValueView { value: self.value@, updated_at_ms: self.updated_at_ms }
    }
}

impl Clone for StateValue {
    fn clone(&self) -> (r: Self)
        ensures
            r@ == self@,
    {
        StateValue { value: self.value.clone(), updated_at_ms: self.updated_at_ms }
    }
}

/// The published state of one module.
#[derive(Debug)]
pub struct ModuleSnapshot {
    /// Module name.
    pub name: String,
    /// The entries, by key.
    pub state: TextMap<StateValue>,
    /// Time of the most recent update to any key (ms since boot).
    pub last_update_ms: u64,
    /// Whether the module is running.
    pub is_active: bool,
}

/// The entries of one module, in the order of their keys.
pub type StateView = Seq<(Seq<char>, StateValueView)>;

/// What a snapshot holds.
pub struct SnapshotView {
    pub name: Seq<char>,
    pub state: StateView,
    pub last_update_ms: u64,
    pub is_active: bool,
}

impl View for ModuleSnapshot {
    type V = SnapshotView;

    open spec fn view(&self) -> SnapshotView {
        SnapshotView {
            name: self.name@,
            state: self.state@,
            last_update_ms: self.last_update_ms,
            is_active: self.is_active,
        }
    }
}

/// A copy of a module's entries.
fn copy_state(m: &TextMap<StateValue>) -> (r: TextMap<StateValue>)
    requires
        keys_ordered(m@),
    ensures
        r@ == m@,
{
    let mut out = TextMap::new();
    let mut i: usize = 0;
    while i < m.len()
        invariant
            i <= m@.len(),
            keys_ordered(m@),
            out@ == m@.take(i as int),
        decreases m@.len() - i,
    {
        proof {
            lemma_append(m@, i as int);
        }
        out.put(m.key_at(i).clone(), m.value_at(i).clone());
        i += 1;
    }
    assert(m@.take(m@.len() as int) =~= m@);
    out
}

/// Putting the next entry of an ordered map behind the entries before it.
proof fn lemma_append<X>(s: Seq<(Seq<char>, X)>, i: int)
    requires
        keys_ordered(s),
        0 <= i < s.len(),
    ensures
        map_put(s.take(i), s[i].0, s[i].1) == s.take(i + 1),
{
    let t = s.take(i);
    lemma_rank(t, s[i].0);
    let p = key_rank(t, s[i].0);
    if p < i {
        assert(text_less_at(s, p, i));
    }
    assert(map_put(t, s[i].0, s[i].1) =~= s.take(i + 1));
}

spec fn text_less_at<X>(s: Seq<(Seq<char>, X)>, i: int, j: int) -> bool {
    crate::text::text_less(s[i].0, s[j].0)
}

impl ModuleSnapshot {
    /// A copy of the snapshot.
    pub fn copy(&self) -> (r: Self)
        requires
            keys_ordered(self@.state),
        ensures
            r@ == self@,
    {
        ModuleSnapshot {
            name: self.name.clone(),
            state: copy_state(&self.state),
            last_update_ms: self.last_update_ms,
            is_active: self.is_active,
        }
    }
}

/// The Glass Box state store.
pub struct GlassBoxStore {
    modules: TextMap<ModuleSnapshot>,
}

/// The modules of a store, in the order of their names.
pub type StoreView = Seq<(Seq<char>, SnapshotView)>;

impl View for GlassBoxStore {
    type V = StoreView;

    closed spec fn view(&self) -> StoreView {
        self.modules@
    }
}

/// The position of the entry that was written longest ago; the first such one in the
/// order of keys.
pub open spec fn oldest_index(state: StateView) -> int
    decreases state.len(),
{
    if state.len() <= 1 {
        0
    } else {
        let k = oldest_index(state.drop_last());
        if state.last().1.updated_at_ms < state[k].1.updated_at_ms {
            state.len() - 1
        } else {
            k
        }
    }
}

/// No entry was written before the oldest one.
pub proof fn lemma_oldest_index(state: StateView)
    requires
        state.len() > 0,
    ensures
        0 <= oldest_index(state) < state.len(),
        forall|j: int|
            0 <= j < state.len() ==> state[oldest_index(state)].1.updated_at_ms <= (
            #[trigger] state[j]).1.updated_at_ms,
        forall|j: int|
            0 <= j < oldest_index(state) ==> state[oldest_index(state)].1.updated_at_ms < (
            #[trigger] state[j]).1.updated_at_ms,
    decreases state.len(),
{
    if state.len() > 1 {
        let d = state.drop_last();
        lemma_oldest_index(d);
        assert forall|j: int| 0 <= j < state.len() implies state[oldest_index(state)].1.updated_at_ms <= (
        #[trigger] state[j]).1.updated_at_ms by {
            if j < state.len() - 1 {
                assert(d[j] == state[j]);
            }
        }
        assert forall|j: int| 0 <= j < oldest_index(state) implies state[oldest_index(state)].1.updated_at_ms < (
        #[trigger] state[j]).1.updated_at_ms by {
            assert(d[j] == state[j]);
        }
    }
}

/// A module that has published nothing yet.
pub open spec fn new_module(name: Seq<char>, now_ms: u64) -> SnapshotView {
    SnapshotView { name, state: Seq::empty(), last_update_ms: now_ms, is_active: true }
}

/// The entries of a module with room for the key: where all places are taken and the
/// key is new, the oldest entry leaves.
pub open spec fn with_room(state: StateView, key: Seq<char>) -> StateView {
    if state.len() >= MAX_ENTRIES_PER_MODULE && !has_key(state, key) {
        state.remove(oldest_index(state))
    } else {
        state
    }
}

/// A module after one entry has been written.
pub open spec fn written(snap: SnapshotView, now_ms: u64, key: Seq<char>, value: Seq<char>) -> SnapshotView {
    let k = first_chars(key, MAX_KEY_LEN as int);
    let v = first_chars(value, MAX_VAL_LEN as int);
    SnapshotView {
        state: map_put(with_room(snap.state, k), k, StateValueView { value: v, updated_at_ms: now_ms }),
        last_update_ms: now_ms,
        ..snap
    }
}

/// The store after one entry of a module has been written. A module that is not
/// there yet appears, as active.
pub open spec fn updated(
    store: StoreView,
    now_ms: u64,
    module: Seq<char>,
    key: Seq<char>,
    value: Seq<char>,
) -> StoreView {
    let snap = match map_get(store, module) {
        Some(s) => s,
        None => new_module(module, now_ms),
    };
    map_put(store, module, written(snap, now_ms, key, value))
}

/// A module's entries stand in order, and are no more than the limit.
pub open spec fn snapshot_wf(snap: SnapshotView) -> bool {
    keys_ordered(snap.state) && snap.state.len() <= MAX_ENTRIES_PER_MODULE
}

/// The modules stand in the order of their names, each under its own name, with
/// their entries in order and within the limit.
pub open spec fn store_wf(store: StoreView) -> bool {
    &&& keys_ordered(store)
    &&& forall|i: int|
        0 <= i < store.len() ==> snapshot_wf((#[trigger] store[i]).1) && store[i].1.name == store[i].0
}

/// Writing an entry keeps a module's entries in order and within the limit.
pub proof fn lemma_written_wf(snap: SnapshotView, now_ms: u64, key: Seq<char>, value: Seq<char>)
    requires
        snapshot_wf(snap),
    ensures
        snapshot_wf(written(snap, now_ms, key, value)),
{
    let k = first_chars(key, MAX_KEY_LEN as int);
    let v = StateValueView { value: first_chars(value, MAX_VAL_LEN as int), updated_at_ms: now_ms };
    let room = with_room(snap.state, k);
    if snap.state.len() >= MAX_ENTRIES_PER_MODULE && !has_key(snap.state, k) {
        let p = oldest_index(snap.state);
        lemma_oldest_index(snap.state);
        assert forall|i: int, j: int| 0 <= i < j < room.len() implies crate::text::text_less(
            #[trigger] room[i].0,
            #[trigger] room[j].0,
        ) by {
            let a = if i < p { i } else { i + 1 };
            let b = if j < p { j } else { j + 1 };
            assert(room[i] == snap.state[a] && room[j] == snap.state[b]);
        }
    }
    lemma_rank(room, k);
    lemma_put_ordered(room, k, v);
}

/// Every update keeps the store well formed.
pub proof fn lemma_updated_wf(store: StoreView, now_ms: u64, module: Seq<char>, key: Seq<char>, value: Seq<char>)
    requires
        store_wf(store),
    ensures
        store_wf(updated(store, now_ms, module, key, value)),
{
    lemma_rank(store, module);
    let p = key_rank(store, module);
    let snap = match map_get(store, module) {
        Some(s) => s,
        None => new_module(module, now_ms),
    };
    if has_key(store, module) {
        assert(store[p].1 == snap);
    }
    lemma_written_wf(snap, now_ms, key, value);
    lemma_put_ordered(store, module, written(snap, now_ms, key, value));
    let t = updated(store, now_ms, module, key, value);
    assert forall|i: int| 0 <= i < t.len() implies snapshot_wf((#[trigger] t[i]).1) && t[i].1.name == t[i].0 by {
        if i != p {
            let a = if has_key(store, module) || i < p { i } else { i - 1 };
            assert(t[i] == store[a]);
        }
    }
}

impl GlassBoxStore {
    /// Create a new, empty store.
    pub fn new() -> (r: Self)
        ensures
            r@ == Seq::<(Seq<char>, SnapshotView)>::empty(),
            store_wf(r@),
    {
        GlassBoxStore { modules: TextMap::new() }
    }

    /// Update a single state key of a module.
    ///
    /// If the module doesn't exist yet, it is created, as active. If the module has
    /// all its entries taken and this is a new key, the oldest entry leaves first.
    pub fn update(&mut self, now_ms: u64, module: &str, key: &str, value: &str)
        ensures
            final(self)@ == updated(old(self)@, now_ms, module@, key@, value@),
            store_wf(old(self)@) ==> store_wf(final(self)@),
    {
        proof {
            if store_wf(self@) {
                lemma_updated_wf(self@, now_ms, module@, key@, value@);
            }
        }
        match self.modules.find(module) {
            Some(p) => {
                let snap = self.modules.value_mut(p);
                snap.write(now_ms, key, value);
            },
            None => {
                let mut snap = ModuleSnapshot {
                    name: text(module),
                    state: TextMap::new(),
                    last_update_ms: now_ms,
                    is_active: true,
                };
                snap.write(now_ms, key, value);
                self.modules.put(text(module), snap);
            },
        }
    }

    /// Mark a module as active or inactive.
    pub fn set_active(&mut self, module: &str, active: bool)
        ensures
            final(self)@ == match map_get(old(self)@, module@) {
                Some(s) => map_put(old(self)@, module@, SnapshotView { is_active: active, ..s }),
                None => old(self)@,
            },
            store_wf(old(self)@) ==> store_wf(final(self)@),
    {
        match self.modules.find(module) {
            Some(p) => {
                proof {
                    if store_wf(self@) {
                        lemma_marked_wf(self@, p as int, active);
                    }
                }
                let snap = self.modules.value_mut(p);
                snap.is_active = active;
            },
            None => {},
        }
    }

    /// A snapshot of all modules, in the order of their names.
    pub fn snapshot(&self) -> (r: Vec<ModuleSnapshot>)
        requires
            store_wf(self@),
        ensures
            views(r@) == self@.map_values(|e: (Seq<char>, SnapshotView)| e.1),
    {
        broadcast use group_views;

        let mut out: Vec<ModuleSnapshot> = Vec::new();
        let ghost all = self@.map_values(|e: (Seq<char>, SnapshotView)| e.1);
        let mut i: usize = 0;
        assert(all.take(0) =~= Seq::empty());
        while i < self.modules.len()
            invariant
                store_wf(self@),
                self@ == self.modules@,
                all == self@.map_values(|e: (Seq<char>, SnapshotView)| e.1),
                i <= self@.len(),
                views(out@) == all.take(i as int),
            decreases self@.len() - i,
        {
            broadcast use group_views;

            assert(snapshot_wf(self@[i as int].1));
            out.push(self.modules.value_at(i).copy());
            i += 1;
            assert(all.take(i as int) =~= all.take(i - 1).push(all[i - 1]));
        }
        assert(all.take(all.len() as int) =~= all);
        out
    }

    /// The state of a single module, or `None` if it has published nothing.
    pub fn get_module(&self, name: &str) -> (r: Option<ModuleSnapshot>)
        requires
            store_wf(self@),
        ensures
            match r {
                Some(s) => map_get(self@, name@) == Some(s@),
                None => map_get(self@, name@) is None,
            },
    {
        match self.modules.find(name) {
            Some(p) => {
                assert(snapshot_wf(self@[p as int].1));
                Some(self.modules.value_at(p).copy())
            },
            None => None,
        }
    }

    /// Remove a module entirely.
    pub fn remove(&mut self, module: &str)
        ensures
            final(self)@ == map_del(old(self)@, module@),
            store_wf(old(self)@) ==> store_wf(final(self)@),
    {
        proof {
            if store_wf(self@) {
                lemma_removed_wf(self@, module@);
            }
        }
        self.modules.remove(module);
    }

    /// How many modules are tracked.
    pub fn module_count(&self) -> (r: usize)
        ensures
            r == self@.len(),
    {
        self.modules.len()
    }
}

/// Marking a module keeps the store well formed.
proof fn lemma_marked_wf(store: StoreView, p: int, active: bool)
    requires
        store_wf(store),
        0 <= p < store.len(),
    ensures
        store_wf(store.update(p, (store[p].0, SnapshotView { is_active: active, ..store[p].1 }))),
{
    let t = store.update(p, (store[p].0, SnapshotView { is_active: active, ..store[p].1 }));
    assert(snapshot_wf(store[p].1));
    assert forall|i: int, j: int| 0 <= i < j < t.len() implies crate::text::text_less(
        #[trigger] t[i].0,
        #[trigger] t[j].0,
    ) by {
        assert(t[i].0 == store[i].0 && t[j].0 == store[j].0);
    }
}

/// Removing a module keeps the store well formed.
pub proof fn lemma_removed_wf(store: StoreView, module: Seq<char>)
    requires
        store_wf(store),
    ensures
        store_wf(map_del(store, module)),
{
    lemma_rank(store, module);
    lemma_del_ordered(store, module);
    let p = key_rank(store, module);
    let t = map_del(store, module);
    assert forall|i: int| 0 <= i < t.len() implies snapshot_wf((#[trigger] t[i]).1) && t[i].1.name == t[i].0 by {
        let a = if !has_key(store, module) || i < p { i } else { i + 1 };
        assert(t[i] == store[a]);
    }
}

impl ModuleSnapshot {
    /// Write one entry.
    fn write(&mut self, now_ms: u64, key: &str, value: &str)
        ensures
            final(self)@ == written(old(self)@, now_ms, key@, value@),
    {
        let k = take_chars(key, MAX_KEY_LEN);
        if self.state.len() >= MAX_ENTRIES_PER_MODULE && self.state.find(k.as_str()).is_none() {
            let p = self.oldest();
            self.state.remove_at(p);
        }
        self.state.put(k, StateValue { value: take_chars(value, MAX_VAL_LEN), updated_at_ms: now_ms });
        self.last_update_ms = now_ms;
    }

    /// The place of the oldest entry.
    fn oldest(&self) -> (r: usize)
        requires
            self@.state.len() > 0,
        ensures
            r == oldest_index(self@.state),
            r < self@.state.len(),
    {
        let mut best: usize = 0;
        let mut i: usize = 1;
        let ghost s = self@.state;
        while i < self.state.len()
            invariant
                s == self.state@,
                best < i <= s.len(),
                best == oldest_index(s.take(i as int)),
            decreases s.len() - i,
        {
            assert(s.take(i + 1).drop_last() =~= s.take(i as int));
            if self.state.value_at(i).updated_at_ms < self.state.value_at(best).updated_at_ms {
                best = i;
            }
            i += 1;
        }
        assert(s.take(s.len() as int) =~= s);
        best
    }
}

/// Convenience function: update a state entry of a module.
pub fn update(store: &mut GlassBoxStore, now_ms: u64, module: &str, key: &str, value: &str)
    ensures
        final(store)@ == updated(old(store)@, now_ms, module@, key@, value@),
        store_wf(old(store)@) ==> store_wf(final(store)@),
{
    store.update(now_ms, module, key, value);
}

} // verus!
