use squirrel::intent_bus::intent::Intent;
use squirrel::kernel::agents::echo::EchoAgent;
use squirrel::kernel::agents::heartbeat::HeartbeatAgent;
use squirrel::kernel::boot::run_tick;
use squirrel::sart::agent::{Agent, AgentContext, AgentPoll, CognitivePriority};
use squirrel::sart::executor::{Sart, IDLE_LIMIT};
use squirrel::system::System;
use std::cell::Cell;
use std::rc::Rc;

/// An agent that notes on the console when it is polled.
struct Probe {
    name: String,
    priority: CognitivePriority,
    answer: AgentPoll,
}

impl Probe {
    fn new(name: &str, priority: CognitivePriority, answer: AgentPoll) -> Probe {
        Probe { name: String::from(name), priority, answer }
    }
}

impl Agent for Probe {
    fn name(&self) -> &str {
        &self.name
    }

    fn priority(&self) -> CognitivePriority {
        self.priority
    }

    fn on_start(&mut self, ctx: &AgentContext, sys: &mut System) {
        sys.print(format!("start {} {}", ctx.bus.sender_name(), ctx.tick));
    }

    fn poll(&mut self, _ctx: &AgentContext, sys: &mut System) -> AgentPoll {
        sys.print(self.name.clone());
        self.answer
    }

    fn on_stop(&mut self) {}
}

/// An agent whose polls return given results, one after the other, and which counts how
/// often it is polled and stopped.
struct Scripted {
    results: Vec<AgentPoll>,
    polls: Rc<Cell<usize>>,
    stops: Rc<Cell<usize>>,
}

impl Agent for Scripted {
    fn name(&self) -> &str {
        "scripted"
    }

    fn priority(&self) -> CognitivePriority {
        CognitivePriority::Active
    }

    fn on_start(&mut self, _ctx: &AgentContext, _sys: &mut System) {}

    fn poll(&mut self, _ctx: &AgentContext, _sys: &mut System) -> AgentPoll {
        let n = self.polls.get();
        self.polls.set(n + 1);
        self.results[n]
    }

    fn on_stop(&mut self) {
        self.stops.set(self.stops.get() + 1);
    }
}

#[test]
fn agents_are_polled_by_priority() {
    let mut sys = System::new();
    let mut sart: Sart<Probe> = Sart::new();
    sart.register(Probe::new("low", CognitivePriority::Background, AgentPoll::Yield), &[], 3, &mut sys);
    sart.register(Probe::new("first", CognitivePriority::Active, AgentPoll::Yield), &[], 3, &mut sys);
    sart.register(Probe::new("top", CognitivePriority::Reasoning, AgentPoll::Yield), &[], 3, &mut sys);
    sart.register(Probe::new("second", CognitivePriority::Active, AgentPoll::Yield), &[], 3, &mut sys);
    assert_eq!(sart.agent_count(), 4);
    assert_eq!(sart.agent_names(), vec!["top", "first", "second", "low"]);
    assert_eq!(sys.console[0], "start low 3");
    sys.console.clear();
    sart.tick(4, &mut sys);
    assert_eq!(sys.console, vec!["top", "first", "second", "low"]);
}

#[test]
fn finished_agent_leaves() {
    let mut sys = System::new();
    let mut sart: Sart<Probe> = Sart::new();
    sart.register(Probe::new("once", CognitivePriority::Active, AgentPoll::Done), &[], 0, &mut sys);
    sart.register(Probe::new("stays", CognitivePriority::Background, AgentPoll::Yield), &[], 0, &mut sys);
    sart.tick(1, &mut sys);
    assert_eq!(sart.agent_names(), vec!["stays"]);
}

#[test]
fn idle_agent_is_polled_every_other_tick() {
    let mut sys = System::new();
    let mut sart: Sart<Probe> = Sart::new();
    sart.register(Probe::new("idle", CognitivePriority::Active, AgentPoll::Pending), &[], 0, &mut sys);
    sys.console.clear();
    for tick in 0..(IDLE_LIMIT as u64 + 1) {
        sart.tick(tick, &mut sys);
    }
    assert_eq!(sys.console.len(), IDLE_LIMIT as usize + 1);
    sart.tick(11, &mut sys);
    assert_eq!(sys.console.len(), 11);
    sart.tick(12, &mut sys);
    assert_eq!(sys.console.len(), 12);
    sart.tick(13, &mut sys);
    assert_eq!(sys.console.len(), 12);
}

#[test]
fn heartbeat_beats_once_a_second() {
    let mut sys = System::new();
    let listener = sys.bus.connect("listener", &["system.heartbeat"]);
    let mut sart: Sart<HeartbeatAgent> = Sart::new();
    sart.register(HeartbeatAgent::new(), &[], 0, &mut sys);
    for tick in 0..=200 {
        run_tick(&mut sart, &mut sys, tick);
    }
    let first = listener.try_recv(&mut sys.bus).unwrap();
    assert_eq!(first.timestamp_ms, 1000);
    assert_eq!(first.payload, vec![1, 100]);
    let second = listener.try_recv(&mut sys.bus).unwrap();
    assert_eq!(second.timestamp_ms, 2000);
    assert!(listener.try_recv(&mut sys.bus).is_none());
}

#[test]
fn echo_drains_one_intent_a_poll() {
    let mut sys = System::new();
    let conn = sys.bus.connect("echo", &["system.heartbeat"]);
    sys.bus.send(Intent::with_bytes("system.heartbeat", "x", vec![]));
    let mut echo = EchoAgent;
    let ctx = AgentContext { bus: &conn, tick: 1 };
    assert!(echo.poll(&ctx, &mut sys) == AgentPoll::Yield);
    assert!(echo.poll(&ctx, &mut sys) == AgentPoll::Pending);
}

#[test]
fn agent_is_stopped_once_when_it_is_done() {
    let mut sys = System::new();
    let mut sart: Sart<Scripted> = Sart::new();
    let polls = Rc::new(Cell::new(0));
    let stops = Rc::new(Cell::new(0));
    let results = vec![AgentPoll::Yield, AgentPoll::Pending, AgentPoll::Done];
    sart.register(Scripted { results, polls: polls.clone(), stops: stops.clone() }, &[], 0, &mut sys);
    sart.tick(1, &mut sys);
    sart.tick(2, &mut sys);
    assert_eq!((polls.get(), stops.get(), sart.agent_count()), (2, 0, 1));
    sart.tick(3, &mut sys);
    assert_eq!((polls.get(), stops.get(), sart.agent_count()), (3, 1, 0));
    sart.tick(4, &mut sys);
    assert_eq!((polls.get(), stops.get()), (3, 1));
}

#[test]
fn work_ends_throttling() {
    let mut sys = System::new();
    let mut sart: Sart<Scripted> = Sart::new();
    let polls = Rc::new(Cell::new(0));
    let mut results = vec![AgentPoll::Pending; IDLE_LIMIT as usize + 1];
    results.push(AgentPoll::Yield);
    results.extend(vec![AgentPoll::Pending; 20]);
    sart.register(Scripted { results, polls: polls.clone(), stops: Rc::new(Cell::new(0)) }, &[], 0, &mut sys);
    // Eleven idle polls at odd ticks, then one odd tick is left out.
    for _ in 0..11 {
        sart.tick(1, &mut sys);
    }
    assert_eq!(polls.get(), 11);
    sart.tick(1, &mut sys);
    assert_eq!(polls.get(), 11);
    // The even tick finds work, and odd ticks count again for eleven polls.
    sart.tick(2, &mut sys);
    for _ in 0..15 {
        sart.tick(3, &mut sys);
    }
    assert_eq!(polls.get(), 23);
}

#[test]
fn agents_are_counted_by_registrations_and_departures() {
    let mut sys = System::new();
    let mut sart: Sart<Probe> = Sart::new();
    for i in 0..5 {
        let answer = if i % 2 == 0 { AgentPoll::Done } else { AgentPoll::Yield };
        sart.register(Probe::new("probe", CognitivePriority::Active, answer), &[], 0, &mut sys);
    }
    assert_eq!(sart.agent_count(), 5);
    sart.tick(1, &mut sys);
    assert_eq!(sart.agent_count(), 2);
    assert_eq!(sart.agent_names().len(), 2);
    sart.register(Probe::new("late", CognitivePriority::Reasoning, AgentPoll::Done), &[], 0, &mut sys);
    assert_eq!(sart.agent_names(), vec!["late", "probe", "probe"]);
    sart.tick(2, &mut sys);
    assert_eq!(sart.agent_count(), 2);
}
