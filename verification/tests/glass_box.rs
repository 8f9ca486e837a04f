use squirrel::glass_box::agent::GlassBoxAgent;
use squirrel::glass_box::display::render_to_string;
use squirrel::glass_box::state::{update, GlassBoxStore, MAX_ENTRIES_PER_MODULE, MAX_KEY_LEN, MAX_VAL_LEN};
use squirrel::intent_bus::intent::Intent;
use squirrel::intent_bus::payloads::GlassBoxUpdate;
use squirrel::sart::agent::{Agent, AgentContext, AgentPoll};
use squirrel::system::System;

#[test]
fn update_is_seen_in_snapshot() {
    let mut store = GlassBoxStore::new();
    store.update(5, "net", "state", "up");
    store.update(7, "net", "state", "down");
    update(&mut store, 9, "abc", "k", "v");
    assert_eq!(store.module_count(), 2);
    let snaps = store.snapshot();
    assert_eq!(snaps[0].name, "abc");
    assert_eq!(snaps[1].name, "net");
    assert_eq!(snaps[1].last_update_ms, 7);
    assert!(snaps[1].is_active);
    assert_eq!(snaps[1].state.len(), 1);
    let v = snaps[1].state.get("state").unwrap();
    assert_eq!((v.value.as_str(), v.updated_at_ms), ("down", 7));
    assert!(store.get_module("none").is_none());
}

#[test]
fn keys_and_values_are_cut() {
    let mut store = GlassBoxStore::new();
    let long_key = "k".repeat(MAX_KEY_LEN + 5);
    let long_value = "v".repeat(MAX_VAL_LEN + 5);
    store.update(1, "m", &long_key, &long_value);
    let m = store.get_module("m").unwrap();
    assert_eq!(m.state.key_at(0).len(), MAX_KEY_LEN);
    assert_eq!(m.state.value_at(0).value.len(), MAX_VAL_LEN);
}

#[test]
fn full_module_drops_its_oldest_entry() {
    let mut store = GlassBoxStore::new();
    for i in 0..MAX_ENTRIES_PER_MODULE {
        store.update(100 - i as u64, "m", &format!("key{}", i), "v");
    }
    store.update(200, "m", "new", "v");
    let m = store.get_module("m").unwrap();
    assert_eq!(m.state.len(), MAX_ENTRIES_PER_MODULE);
    assert!(m.state.get("key31").is_none());
    assert!(m.state.get("key0").is_some());
    assert!(m.state.get("new").is_some());
    store.update(300, "m", "new", "w");
    assert_eq!(store.get_module("m").unwrap().state.len(), MAX_ENTRIES_PER_MODULE);
}

#[test]
fn modules_can_be_deactivated_and_removed() {
    let mut store = GlassBoxStore::new();
    store.update(1, "m", "k", "v");
    store.set_active("m", false);
    assert!(!store.get_module("m").unwrap().is_active);
    store.set_active("absent", true);
    assert_eq!(store.module_count(), 1);
    store.remove("m");
    assert_eq!(store.module_count(), 0);
}

#[test]
fn rendering_shows_modules_and_entries() {
    let mut store = GlassBoxStore::new();
    store.update(10, "net", "state", "up");
    let shown = render_to_string(&store.snapshot(), 20, 35);
    let lines: Vec<&str> = shown.lines().collect();
    assert_eq!(lines.len(), 4);
    assert!(lines[0].starts_with("\u{250c}\u{2500}\u{2500}\u{2500} Glass Box "));
    let head = format!("\u{2502} \u{25cf} {:20} {:>8}ms ago", "net", 25);
    assert_eq!(lines[1], format!("{}{} \u{2502}", head, " ".repeat(52 - head.chars().count())));
    let entry = format!("\u{2502}   {:16} = {}", "state", "up");
    assert_eq!(lines[2], format!("{}{} \u{2502}", entry, " ".repeat(52 - entry.chars().count())));
    assert!(lines[3].starts_with("\u{2514}"));
    assert!(shown.ends_with("\u{2518}\n"));
}

#[test]
fn rendering_stops_at_its_limit() {
    let mut store = GlassBoxStore::new();
    for i in 0..5 {
        store.update(10, &format!("m{}", i), "k", "v");
    }
    store.set_active("m0", false);
    let shown = render_to_string(&store.snapshot(), 6, 10);
    let lines: Vec<&str> = shown.lines().collect();
    assert_eq!(lines.len(), 6);
    assert!(lines[1].contains("\u{25cb} m0"));
    assert!(lines[2].contains("k                = v"));
    assert!(lines[3].contains("\u{25cf} m1"));
    assert!(lines[4].contains("... (5 more modules) ..."));
    for max_lines in 3..20 {
        assert!(render_to_string(&store.snapshot(), max_lines, 10).lines().count() <= max_lines);
    }
    assert_eq!(render_to_string(&store.snapshot(), 12, 10).lines().count(), 12);
}

#[test]
fn agent_applies_updates_and_stops() {
    let mut sys = System::new();
    let conn = sys.bus.connect("glass-box", &["glass-box.update", "glass-box.module.stopped"]);
    let mut agent = GlassBoxAgent::new(false);
    let ctx = AgentContext { bus: &conn, tick: 60 };
    assert!(agent.poll(&ctx, &mut sys) == AgentPoll::Pending);
    sys.bus.send(Intent::request("glass-box.update", "x", &GlassBoxUpdate::new("m", "k", "v")));
    sys.bus.send(Intent::request("glass-box.update", "x", &GlassBoxUpdate::new("n", "k", "v")));
    sys.bus.send(Intent::request("glass-box.module.stopped", "x", &String::from("n")));
    assert!(agent.poll(&ctx, &mut sys) == AgentPoll::Yield);
    assert_eq!(sys.glass_box.module_count(), 1);
    assert_eq!(sys.glass_box.get_module("m").unwrap().state.get("k").unwrap().value, "v");
    assert!(sys.console.is_empty());
}

#[test]
fn agent_renders_twice_a_second() {
    let mut sys = System::new();
    let conn = sys.bus.connect("glass-box", &["glass-box.update"]);
    sys.glass_box.update(0, "m", "k", "v");
    let mut agent = GlassBoxAgent::new(true);
    for tick in 0..=100 {
        agent.poll(&AgentContext { bus: &conn, tick }, &mut sys);
    }
    assert_eq!(sys.console.len(), 2);
    assert_eq!(sys.console[0], render_to_string(&sys.glass_box.snapshot(), 20, 0));
}

#[test]
fn rendering_has_as_many_lines_as_wanted_at_most() {
    let mut store = GlassBoxStore::new();
    for m in 0..6 {
        for k in 0..5 {
            store.update(0, &format!("module{}", m), &format!("key{}", k), "v");
        }
    }
    let shown = store.snapshot();
    for max in 3..40 {
        let lines = render_to_string(&shown, max, 0).matches('\n').count();
        assert!(lines <= max);
    }
    assert_eq!(render_to_string(&shown, 100, 0).matches('\n').count(), 2 + 6 * 5);
}
