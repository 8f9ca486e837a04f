//! What the agents share: the bus, the Glass Box, the keyboard buffer, and what is
//! waiting to be printed or applied by the kernel.

use std::collections::VecDeque;

use vstd::prelude::*;

use crate::glass_box::state::{store_wf, GlassBoxStore, SnapshotView, StoreView};
use crate::intent_bus::bus::{BusState, IntentBus};
use crate::views::{group_views, views};

verus! {

/// A change of the settings store that an agent has asked for.
#[derive(Debug)]
pub enum SettingsChange {
    /// Store a value under a key.
    Value { key: String, value: String },
    /// Store the API key.
    ApiKey(String),
}

/// What a change of the settings holds.
pub enum SettingsChangeView {
    Value { key: Seq<char>, value: Seq<char> },
    ApiKey(Seq<char>),
}

impl View for SettingsChange {
    type V = SettingsChangeView;

    open spec fn view(&self) -> SettingsChangeView {
        match self {
            SettingsChange::Value { key, value } => SettingsChangeView::Value { key: key@, value: value@ },
            SettingsChange::ApiKey(key) => SettingsChangeView::ApiKey(key@),
        }
    }
}

/// The state that agents share.
pub struct System {
    pub bus: IntentBus,
    pub glass_box: GlassBoxStore,
    /// Decoded characters that no one has read yet, oldest first.
    pub keyboard: VecDeque<char>,
    /// Text to print, in order.
    pub console: Vec<String>,
    /// Settings to apply, in order.
    pub settings: Vec<SettingsChange>,
}

/// What the system holds.
pub struct SystemView {
    pub bus: BusState,
    pub glass_box: StoreView,
    pub keyboard: Seq<char>,
    pub console: Seq<Seq<char>>,
    pub settings: Seq<SettingsChangeView>,
}

impl View for System {
    type V = SystemView;

    open spec fn view(&self) -> SystemView {
        SystemView {
            bus: self.bus@,
            glass_box: self.glass_box@,
            keyboard: self.keyboard@,
            console: views(self.console@),
            settings: views(self.settings@),
        }
    }
}

impl SystemView {
    /// Bus and store are well formed.
    pub open spec fn wf(self) -> bool {
        self.bus.wf() && store_wf(self.glass_box)
    }

    /// The system after a component has registered on the bus.
    pub open spec fn joined(self, name: Seq<char>, subscriptions: Seq<Seq<char>>) -> SystemView {
        SystemView { bus: self.bus.connected(name, subscriptions), ..self }
    }

    /// The system after one more text was printed.
    pub open spec fn printed(self, s: Seq<char>) -> SystemView {
        SystemView { console: self.console.push(s), ..self }
    }
}

impl System {
    pub fn new() -> (r: Self)
        ensures
            r@ == (SystemView {
                bus: BusState { subscribers: Seq::empty(), audit: Seq::empty(), next_id: 1, now_ms: 0 },
                glass_box: Seq::<(Seq<char>, SnapshotView)>::empty(),
                keyboard: Seq::empty(),
                console: Seq::empty(),
                settings: Seq::empty(),
            }),
            r@.wf(),
    {
        broadcast use group_views;

        System {
            bus: IntentBus::new(),
            glass_box: GlassBoxStore::new(),
            keyboard: VecDeque::new(),
            console: Vec::new(),
            settings: Vec::new(),
        }
    }

    /// Print a text.
    pub fn print(&mut self, s: String)
        ensures
            final(self)@ == old(self)@.printed(s@),
    {
        broadcast use group_views;

        self.console.push(s);
    }
}

} // verus!
