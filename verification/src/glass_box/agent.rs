//! The Glass Box agent: takes state updates from the bus into the store, and renders
//! the store periodically.

use vstd::prelude::*;

use crate::glass_box::display::{render_to_string, rendered};
use crate::glass_box::state::{updated, SnapshotView, StoreView};
use crate::intent_bus::bus::{current_ms, leaving, lemma_next_index, next_index};
use crate::intent_bus::intent::IntentView;
use crate::intent_bus::payloads::{GlassBoxUpdate, Payload};
use crate::sart::agent::{Agent, AgentContext, AgentPoll, CognitivePriority};
use crate::system::{System, SystemView};
use crate::text::text_eq;
use crate::text_map::map_del;
use crate::views::{group_views, views};

verus! {

/// Ticks between two renderings.
pub const RENDER_INTERVAL: u64 = 50;

/// Lines of the rendered box.
pub const RENDER_LINES: usize = 20;

/// The Glass Box agent.
pub struct GlassBoxAgent {
    /// Tick of the last rendering.
    pub render_tick: u64,
    /// Whether to render periodically.
    pub display_enabled: bool,
}

/// The intent changes the store: an update or a stop notice that can be read.
pub open spec fn is_effective(intent: IntentView) -> bool {
    if intent.semantic_type == "glass-box.update"@ {
        GlassBoxUpdate::parsed(intent.payload) is Some
    } else if intent.semantic_type == "glass-box.module.stopped"@ {
        String::parsed(intent.payload) is Some
    } else {
        false
    }
}

/// The store after one intent: an update writes an entry, a stop notice removes the
/// module, anything else changes nothing.
pub open spec fn applied(store: StoreView, now_ms: u64, intent: IntentView) -> StoreView {
    if intent.semantic_type == "glass-box.update"@ {
        match GlassBoxUpdate::parsed(intent.payload) {
            Some(u) => updated(store, now_ms, u.module, u.key, u.value),
            None => store,
        }
    } else if intent.semantic_type == "glass-box.module.stopped"@ {
        match String::parsed(intent.payload) {
            Some(name) => map_del(store, name),
            None => store,
        }
    } else {
        store
    }
}

/// The store after several intents, in order.
pub open spec fn applied_all(store: StoreView, now_ms: u64, intents: Seq<IntentView>) -> StoreView
    decreases intents.len(),
{
    if intents.len() == 0 {
        store
    } else {
        applied_all(applied(store, now_ms, intents[0]), now_ms, intents.skip(1))
    }
}

/// One of the intents changes the store.
pub open spec fn any_effective(intents: Seq<IntentView>) -> bool
    decreases intents.len(),
{
    intents.len() > 0 && (is_effective(intents[0]) || any_effective(intents.skip(1)))
}

/// The modules of a store.
pub open spec fn modules_of(store: StoreView) -> Seq<SnapshotView> {
    store.map_values(|e: (Seq<char>, SnapshotView)| e.1)
}

impl GlassBoxAgent {
    /// `display_enabled`: whether the agent renders the store every 50 ticks. It takes
    /// in updates either way.
    pub fn new(display_enabled: bool) -> (r: Self)
        ensures
            r == (GlassBoxAgent { render_tick: 0, display_enabled }),
    {
        GlassBoxAgent { render_tick: 0, display_enabled }
    }

    /// The box is to be rendered at this tick.
    pub open spec fn render_due(self, tick: u64) -> bool {
        self.display_enabled && tick >= self.render_tick + RENDER_INTERVAL
    }

    /// Take one intent into the store. Returns whether it changed the store.
    fn take_in(sys: &mut System, intent: &crate::intent_bus::intent::Intent) -> (r: bool)
        requires
            old(sys)@.wf(),
        ensures
            final(sys)@.wf(),
            final(sys)@ == (SystemView {
                glass_box: applied(old(sys)@.glass_box, old(sys)@.bus.now_ms, intent@),
                ..old(sys)@
            }),
            r == is_effective(intent@),
    {
        let now = current_ms(&sys.bus);
        if text_eq(intent.semantic_type.as_str(), "glass-box.update") {
            match intent.decode::<GlassBoxUpdate>() {
                Ok(u) => {
                    sys.glass_box.update(now, u.module.as_str(), u.key.as_str(), u.value.as_str());
                    true
                },
                Err(_) => false,
            }
        } else if text_eq(intent.semantic_type.as_str(), "glass-box.module.stopped") {
            match intent.decode::<String>() {
                Ok(name) => {
                    sys.glass_box.remove(name.as_str());
                    true
                },
                Err(_) => false,
            }
        } else {
            false
        }
    }
}

impl Agent for GlassBoxAgent {
    open spec fn agent_name(&self) -> Seq<char> {
        "glass-box"@
    }

    open spec fn agent_priority(&self) -> CognitivePriority {
        CognitivePriority::Background
    }

    open spec fn ready(&self, tick: u64) -> bool {
        self.render_tick <= u64::MAX - RENDER_INTERVAL
    }

    open spec fn started(pre: Self, name: Seq<char>, tick: u64, sys: SystemView, post: Self, after: SystemView) -> bool {
        post == pre && after == sys
    }

    /// All waiting intents are taken into the store. Where a rendering is due, the
    /// box is printed, unless the store is empty.
    open spec fn polled(
        pre: Self,
        name: Seq<char>,
        tick: u64,
        sys: SystemView,
        post: Self,
        after: SystemView,
        r: AgentPoll,
    ) -> bool {
        let intents = leaving(sys.bus.inbox_of(name));
        let now = sys.bus.now_ms;
        let store = applied_all(sys.glass_box, now, intents);
        let due = pre.render_due(tick);
        &&& after == SystemView {
            bus: sys.bus.with_inbox(name, Seq::empty()),
            glass_box: store,
            console: if due && store.len() > 0 {
                sys.console.push(rendered(modules_of(store), RENDER_LINES as int, now))
            } else {
                sys.console
            },
            ..sys
        }
        &&& post == GlassBoxAgent {
            render_tick: if due {
                tick
            } else {
                pre.render_tick
            },
            ..pre
        }
        &&& r == if due || any_effective(intents) {
            AgentPoll::Yield
        } else {
            AgentPoll::Pending
        }
    }

    open spec fn stopped(pre: Self, post: Self) -> bool {
        post == pre
    }

    fn name(&self) -> (r: &str) {
        "glass-box"
    }

    fn priority(&self) -> (r: CognitivePriority) {
        CognitivePriority::Background
    }

    fn on_start(&mut self, ctx: &AgentContext, sys: &mut System) {
    }

    fn poll(&mut self, ctx: &AgentContext, sys: &mut System) -> (r: AgentPoll) {
        broadcast use group_views;

        let mut did_work = false;
        let ghost name = ctx.bus@;
        let ghost bus0 = sys.bus@;
        let ghost inbox0 = bus0.inbox_of(name);
        let ghost store0 = sys.glass_box@;
        let ghost now0 = bus0.now_ms;
        let mut more = true;
        proof {
            bus0.lemma_with_inbox(name, inbox0, inbox0);
        }
        while more
            invariant
                name == ctx.bus@,
                sys@.wf(),
                sys@ == (SystemView { bus: sys@.bus, glass_box: sys@.glass_box, ..old(sys)@ }),
                inbox0 == bus0.inbox_of(name),
                now0 == bus0.now_ms,
                sys.bus@ == bus0.with_inbox(name, sys.bus@.inbox_of(name)),
                applied_all(sys.glass_box@, now0, leaving(sys.bus@.inbox_of(name))) == applied_all(
                    store0,
                    now0,
                    leaving(inbox0),
                ),
                (did_work || any_effective(leaving(sys.bus@.inbox_of(name)))) == any_effective(leaving(inbox0)),
                !more ==> sys.bus@.inbox_of(name).len() == 0,
            decreases sys.bus@.inbox_of(name).len() + (if more { 1int } else { 0int }),
        {
            let ghost inbox = sys.bus@.inbox_of(name);
            let ghost before = sys.bus@;
            match ctx.bus.try_recv(&mut sys.bus) {
                Some(intent) => {
                    proof {
                        lemma_next_index(inbox);
                        let n = next_index(inbox);
                        let rest = inbox.remove(n);
                        before.lemma_with_inbox(name, rest, rest);
                        bus0.lemma_with_inbox(name, inbox, rest);
                        assert(leaving(inbox)[0] == intent@);
                        assert(leaving(inbox).skip(1) =~= leaving(rest));
                    }
                    if Self::take_in(sys, &intent) {
                        did_work = true;
                    }
                },
                None => {
                    more = false;
                },
            }
        }
        proof {
            assert(sys.bus@.inbox_of(name) =~= Seq::empty());
            assert(leaving(sys.bus@.inbox_of(name)).len() == 0);
            bus0.lemma_with_inbox(name, inbox0, inbox0);
        }
        let ghost store = sys.glass_box@;
        if self.display_enabled && ctx.tick >= self.render_tick + RENDER_INTERVAL {
            let snapshots = sys.glass_box.snapshot();
            assert(views(snapshots@).len() == store.len());
            if snapshots.len() > 0 {
                let now = current_ms(&sys.bus);
                let box_text = render_to_string(snapshots.as_slice(), RENDER_LINES, now);
                sys.print(box_text);
            }
            self.render_tick = ctx.tick;
            did_work = true;
        }
        if did_work {
            AgentPoll::Yield
        } else {
            AgentPoll::Pending
        }
    }

    fn on_stop(&mut self) {
    }
}

} // verus!
