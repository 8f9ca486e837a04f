//! Bringing the system up: the components and what they listen to, the self-tests of the
//! bus and the Glass Box, and one round of the main loop.

use vstd::prelude::*;

use crate::intent_bus::bus::{patterns_of, set_current_ms, subscriber_named, BusState, IntentBus};
use crate::intent_bus::intent::{answer_to, fresh_intent, type_matches, Intent, IntentView};
use crate::intent_bus::laws::law_send_then_receive;
use crate::intent_bus::payloads::{GlassBoxUpdate, GlassBoxUpdateView, Payload, TestMsg};
use crate::kernel::timer::TICK_MS;
use crate::sart::agent::{Agent, AgentPoll};
use crate::sart::executor::{round, Sart};
use crate::system::{System, SystemView};

verus! {

/// The components that are registered at boot.
#[derive(Debug, Clone, Copy, PartialEq, Eq, Structural)]
pub enum Component {
    GlassBox,
    Heartbeat,
    Echo,
    Network,
    Inference,
    SettingsHandler,
    HelloModule,
    SettingsModule,
    KeyboardBridge,
    DisplayModule,
    InputModule,
    StorageModule,
    PrimaryAgent,
}

/// The components in the order in which they are registered. The Glass Box comes first,
/// so that it hears of all the others.
pub fn boot_order() -> (r: Vec<Component>)
    ensures
        r@ == seq![
            Component::GlassBox,
            Component::Heartbeat,
            Component::Echo,
            Component::Network,
            Component::Inference,
            Component::SettingsHandler,
            Component::HelloModule,
            Component::SettingsModule,
            Component::KeyboardBridge,
            Component::DisplayModule,
            Component::InputModule,
            Component::StorageModule,
            Component::PrimaryAgent,
        ],
{
    let r = vec![
        Component::GlassBox,
        Component::Heartbeat,
        Component::Echo,
        Component::Network,
        Component::Inference,
        Component::SettingsHandler,
        Component::HelloModule,
        Component::SettingsModule,
        Component::KeyboardBridge,
        Component::DisplayModule,
        Component::InputModule,
        Component::StorageModule,
        Component::PrimaryAgent,
    ];
    r
}

/// The name that a component is registered under.
pub open spec fn name_of(c: Component) -> Seq<char> {
    match c {
        Component::GlassBox => "glass-box"@,
        Component::Heartbeat => "heartbeat"@,
        Component::Echo => "echo"@,
        Component::Network => "network-agent"@,
        Component::Inference => "inference-engine"@,
        Component::SettingsHandler => "settings-handler"@,
        Component::HelloModule => "hello-module"@,
        Component::SettingsModule => "settings-module"@,
        Component::KeyboardBridge => "keyboard-bridge"@,
        Component::DisplayModule => "display-module"@,
        Component::InputModule => "input-module"@,
        Component::StorageModule => "storage-module"@,
        Component::PrimaryAgent => "primary-agent"@,
    }
}

/// The name that a component is registered under.
pub fn component_name(c: Component) -> (r: &'static str)
    ensures
        r@ == name_of(c),
{
    match c {
        Component::GlassBox => "glass-box",
        Component::Heartbeat => "heartbeat",
        Component::Echo => "echo",
        Component::Network => "network-agent",
        Component::Inference => "inference-engine",
        Component::SettingsHandler => "settings-handler",
        Component::HelloModule => "hello-module",
        Component::SettingsModule => "settings-module",
        Component::KeyboardBridge => "keyboard-bridge",
        Component::DisplayModule => "display-module",
        Component::InputModule => "input-module",
        Component::StorageModule => "storage-module",
        Component::PrimaryAgent => "primary-agent",
    }
}

/// No two components have one name, so that each finds its own inbox on the bus.
pub proof fn law_names_are_unique(a: Component, b: Component)
    requires
        a != b,
    ensures
        name_of(a) != name_of(b),
{
    reveal_strlit("glass-box");
    reveal_strlit("heartbeat");
    reveal_strlit("echo");
    reveal_strlit("network-agent");
    reveal_strlit("inference-engine");
    reveal_strlit("settings-handler");
    reveal_strlit("hello-module");
    reveal_strlit("settings-module");
    reveal_strlit("keyboard-bridge");
    reveal_strlit("display-module");
    reveal_strlit("input-module");
    reveal_strlit("storage-module");
    reveal_strlit("primary-agent");
    let s = name_of(a);
    let t = name_of(b);
    if s == t {
        assert(s.len() == t.len());
        assert(s[0] == t[0] && s[1] == t[1] && s[2] == t[2] && s[3] == t[3]);
    }
}

/// What a component listens to.
pub open spec fn listens_to(c: Component) -> Seq<Seq<char>> {
    match c {
        Component::GlassBox => seq!["glass-box.update"@, "glass-box.module.stopped"@],
        Component::Heartbeat => Seq::empty(),
        Component::Echo => seq!["system.heartbeat"@],
        Component::Network => seq!["network.http.post"@],
        Component::Inference => seq!["inference.generate"@],
        Component::SettingsHandler => seq!["settings.set"@, "input.secret.response"@],
        Component::HelloModule => Seq::empty(),
        Component::SettingsModule => seq!["settings.open"@, "input.char"@],
        Component::KeyboardBridge => Seq::empty(),
        Component::DisplayModule => seq!["display.print"@, "display.clear"@, "display.prompt"@],
        Component::InputModule => seq!["input.char"@, "input.request_secret"@, "input.request_line"@],
        Component::StorageModule => seq![
            "storage.store"@,
            "storage.retrieve"@,
            "kernel.storage.store.response"@,
            "kernel.storage.retrieve.response"@,
        ],
        Component::PrimaryAgent => seq![
            "input.line"@,
            "inference.generate.response"@,
            "system.status"@,
            "settings.closed"@,
            "display.clear.done"@,
        ],
    }
}

/// What a component listens to.
pub fn subscriptions(c: Component) -> (r: Vec<&'static str>)
    ensures
        patterns_of(r@) == listens_to(c),
{
    let r: Vec<&'static str> = match c {
        Component::GlassBox => vec!["glass-box.update", "glass-box.module.stopped"],
        Component::Heartbeat => Vec::new(),
        Component::Echo => vec!["system.heartbeat"],
        Component::Network => vec!["network.http.post"],
        Component::Inference => vec!["inference.generate"],
        Component::SettingsHandler => vec!["settings.set", "input.secret.response"],
        Component::HelloModule => Vec::new(),
        Component::SettingsModule => vec!["settings.open", "input.char"],
        Component::KeyboardBridge => Vec::new(),
        Component::DisplayModule => vec!["display.print", "display.clear", "display.prompt"],
        Component::InputModule => vec!["input.char", "input.request_secret", "input.request_line"],
        Component::StorageModule => vec![
            "storage.store",
            "storage.retrieve",
            "kernel.storage.store.response",
            "kernel.storage.retrieve.response",
        ],
        Component::PrimaryAgent => vec![
            "input.line",
            "inference.generate.response",
            "system.status",
            "settings.closed",
            "display.clear.done",
        ],
    };
    assert(patterns_of(r@) =~= listens_to(c));
    r
}

/// Whether a component is registered: the network's only where the network is up.
pub fn is_registered(c: Component, network_ready: bool) -> (r: bool)
    ensures
        r == (c != Component::Network || network_ready),
{
    match c {
        Component::Network => network_ready,
        _ => true,
    }
}

/// The bus after its self-test.
pub open spec fn bus_tested(bus: BusState) -> BusState {
    bus.connected("test-sender"@, Seq::empty()).connected("test-receiver"@, seq!["test.ping"@]).sent_by(
        "test-sender"@,
        fresh_intent("test.ping"@, "test-sender"@, TestMsg::wire(42u32)),
    ).after_recv("test-receiver"@)
}

/// Self-test of the bus: a message that is sent is received, and reads as it was written.
pub fn bus_self_test(bus: &mut IntentBus) -> (r: Option<u32>)
    requires
        subscriber_named(old(bus)@.subscribers, "test-sender"@) is None,
        subscriber_named(old(bus)@.subscribers, "test-receiver"@) is None,
    ensures
        r == Some(42u32),
        final(bus)@ == bus_tested(old(bus)@),
        old(bus)@.wf() ==> final(bus)@.wf(),
{
    let ghost start = bus@;
    let none: Vec<&'static str> = Vec::new();
    assert(patterns_of(none@) =~= Seq::empty());
    let ping: Vec<&'static str> = vec!["test.ping"];
    assert(patterns_of(ping@) =~= seq!["test.ping"@]);
    let a = bus.connect("test-sender", none.as_slice());
    let ghost joined = bus@;
    let b = bus.connect("test-receiver", ping.as_slice());
    let sent = Intent::request("test.ping", "test-sender", &TestMsg { value: 42 });
    let ghost wanted = IntentView { sender: "test-sender"@, ..sent@ };
    proof {
        reveal_strlit("test-sender");
        reveal_strlit("test-receiver");
        assert("test-sender"@.len() != "test-receiver"@.len());
        lemma_other_name(start, "test-sender"@, "test-receiver"@);
        assert(type_matches("test.ping"@, seq!["test.ping"@][0]));
        law_send_then_receive(joined, "test-receiver"@, seq!["test.ping"@], wanted);
    }
    a.send(bus, sent);
    match b.try_recv(bus) {
        Some(received) => {
            assert(received@.payload == TestMsg::wire(42u32));
            assert(TestMsg::sound(42u32));
            match received.decode::<TestMsg>() {
                Ok(m) => Some(m.value),
                Err(_) => None,
            }
        },
        None => None,
    }
}

/// Registering under one name registers no other.
proof fn lemma_other_name(bus: BusState, name: Seq<char>, other: Seq<char>)
    requires
        name != other,
        subscriber_named(bus.subscribers, name) is None,
        subscriber_named(bus.subscribers, other) is None,
    ensures
        subscriber_named(bus.connected(name, Seq::empty()).subscribers, other) is None,
{
    crate::intent_bus::bus::lemma_subscriber_named(bus.subscribers, other);
    crate::intent_bus::bus::lemma_subscriber_named(bus.connected(name, Seq::empty()).subscribers, other);
}

/// Self-test of the Glass Box: publish that the kernel is booting.
pub fn glass_box_self_test(bus: &mut IntentBus)
    ensures
        final(bus)@ == old(bus)@.connected("kernel-test"@, Seq::empty()).sent_by(
            "kernel-test"@,
            fresh_intent(
                "glass-box.update"@,
                "kernel-test"@,
                GlassBoxUpdate::wire(
                    GlassBoxUpdateView { module: "kernel"@, key: "status"@, value: "booting"@ },
                ),
            ),
        ),
        old(bus)@.wf() ==> final(bus)@.wf(),
{
    let none: Vec<&'static str> = Vec::new();
    assert(patterns_of(none@) =~= Seq::empty());
    let conn = bus.connect("kernel-test", none.as_slice());
    let update = GlassBoxUpdate::new("kernel", "status", "booting");
    conn.send(bus, Intent::request("glass-box.update", "kernel-test", &update));
}

/// The system at a tick: the bus knows the time.
pub open spec fn at_tick(sys: SystemView, tick: u64) -> SystemView {
    SystemView { bus: BusState { now_ms: (tick * TICK_MS) as u64, ..sys.bus }, ..sys }
}

/// One round of the main loop: tell the bus the time, and poll the agents.
pub fn run_tick<A: Agent>(sart: &mut Sart<A>, sys: &mut System, tick: u64)
    requires
        old(sart).wf(),
        old(sys)@.wf(),
        tick * TICK_MS <= u64::MAX,
        forall|i: int| 0 <= i < old(sart)@.len() ==> (#[trigger] old(sart)@[i]).agent.ready(tick),
    ensures
        final(sart).wf(),
        final(sys)@.wf(),
        exists|results: Seq<Option<AgentPoll>>|
            round(old(sart)@, tick, results, at_tick(old(sys)@, tick), final(sys)@, final(sart)@),
{
    set_current_ms(&mut sys.bus, tick * TICK_MS);
    assert(sys@ =~= at_tick(old(sys)@, tick));
    sart.tick(tick, sys);
}

/// The primary agent hears the answers to the questions that it asks the model.
pub proof fn law_answers_reach_the_primary_agent(question: IntentView, sender: Seq<char>, payload: Seq<u8>)
    requires
        question.semantic_type == "inference.generate"@,
    ensures
        exists|i: int|
            0 <= i < listens_to(Component::PrimaryAgent).len() && type_matches(
                answer_to(question, sender, payload).semantic_type,
                #[trigger] listens_to(Component::PrimaryAgent)[i],
            ),
{
    reveal_strlit("inference.generate");
    reveal_strlit(".response");
    reveal_strlit("inference.generate.response");
    let t = answer_to(question, sender, payload).semantic_type;
    assert(t =~= "inference.generate.response"@);
    assert(type_matches(t, listens_to(Component::PrimaryAgent)[1]));
}

} // verus!
