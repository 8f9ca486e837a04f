//! The hello module: says hello once, when it is loaded.

use vstd::prelude::*;

use crate::modules::host::{send_intent, sends, HostCall, HostView};
use crate::text::text;
use crate::views::{group_views, views};

verus! {

/// The module holds no state.
pub struct HelloModule;

impl HelloModule {
    /// Called once when the module is loaded.
    pub fn init(&self) -> (r: Vec<HostCall>)
        ensures
            views(r@) == seq![
                HostView::Log { message: "Hello from WASM!"@ },
                sends("hello.world"@, seq![0u8]),
            ],
    {
        broadcast use group_views;

        let mut payload: Vec<u8> = Vec::new();
        payload.push(0);
        assert(payload@ =~= seq![0u8]);
        let mut out: Vec<HostCall> = Vec::new();
        out.push(HostCall::Log { message: text("Hello from WASM!") });
        out.push(send_intent("hello.world", payload.as_slice()));
        out
    }

    /// Called every tick: there is nothing left to do.
    pub fn poll(&self) -> (r: Vec<HostCall>)
        ensures
            r@.len() == 0,
    {
        Vec::new()
    }
}

} // verus!
