use std::cell::RefCell;

use ats_multiplexer::ats_plugin::{
    AtsHandles, ATS_CONSTANTSPEED_CONTINUE, ATS_CONSTANTSPEED_DISABLE, ATS_CONSTANTSPEED_ENABLE,
    ATS_VERSION,
};
use ats_multiplexer::child::{Capabilities, ChildModule, EntryPoint};
use ats_multiplexer::dispatch::{merge_handles, ChildStep};
use ats_multiplexer::manifest::{is_in_tree, join_entry, manifest_lines};
use ats_multiplexer::registry::{LoadCause, Opened, Registry};

#[derive(Debug, Clone, PartialEq)]
struct Fake {
    name: String,
    proposal: AtsHandles,
}

fn handles(power: i32, brake: i32, reverser: i32, constant_speed: i32) -> AtsHandles {
    AtsHandles { brake, power, reverser, constant_speed }
}

fn caps_all() -> Capabilities {
    Capabilities {
        load: true,
        dispose: true,
        set_vehicle_spec: true,
        initialize: true,
        elapse: true,
        set_power: true,
        set_brake: true,
        set_reverser: true,
        key_down: true,
        key_up: true,
        horn_blow: true,
        door_open: true,
        door_close: true,
        set_signal: true,
        set_beacon_data: true,
    }
}

fn child(name: &str, caps: Capabilities, proposal: AtsHandles) -> ChildModule<Fake> {
    ChildModule::new(Fake { name: name.to_string(), proposal }, caps)
}

fn registry_of(children: Vec<ChildModule<Fake>>) -> Registry<Fake> {
    let mut reg = Registry::new();
    let text: String = children.iter().map(|c| format!("{}\n", c.module.name)).collect();
    let pending = RefCell::new(children);
    let r = reg.load_manifest("base", &text, |_p: &str| -> Opened<Fake> {
        Ok(pending.borrow_mut().remove(0))
    });
    assert!(r.is_ok());
    reg
}

/// Runs one frame, recording every step handed out and every child run.
fn frame(reg: &mut Registry<Fake>) -> (AtsHandles, Vec<(String, ChildStep)>, Vec<String>) {
    let told = RefCell::new(Vec::new());
    let ran = RefCell::new(Vec::new());
    let r = reg.elapse(
        |m: &Fake, s: ChildStep| told.borrow_mut().push((m.name.clone(), s)),
        |m: &Fake| {
            ran.borrow_mut().push(m.name.clone());
            m.proposal
        },
    );
    (r, told.into_inner(), ran.into_inner())
}

#[test]
fn version_is_two_zero() {
    assert_eq!(ATS_VERSION, 0x0002_0000);
}

#[test]
fn symbols_are_exported_names() {
    assert_eq!(EntryPoint::Load.symbol(), "Load");
    assert_eq!(EntryPoint::SetBeaconData.symbol(), "SetBeaconData");
    assert_eq!(EntryPoint::Elapse.symbol(), "Elapse");
    assert_eq!(EntryPoint::DoorClose.symbol(), "DoorClose");
}

#[test]
fn capabilities_lookup() {
    let caps = Capabilities { key_up: true, ..Capabilities::none() };
    assert!(caps.has(EntryPoint::KeyUp));
    assert!(!caps.has(EntryPoint::KeyDown));
    assert!(!Capabilities::none().has(EntryPoint::Load));
    assert!(caps_all().has(EntryPoint::SetSignal));
}

#[test]
fn lines_split_on_newlines() {
    assert_eq!(manifest_lines("a.dll\r\nb.dll\n"), vec!["a.dll".to_string(), "b.dll".to_string()]);
    assert_eq!(manifest_lines("a\n\nb"), vec!["a".to_string(), String::new(), "b".to_string()]);
    assert_eq!(manifest_lines(""), Vec::<String>::new());
    assert_eq!(manifest_lines("\n"), vec![String::new()]);
    assert_eq!(manifest_lines("x\r"), vec!["x\r".to_string()]);
    assert_eq!(manifest_lines("é\r\r\nü"), vec!["é\r".to_string(), "ü".to_string()]);
}

#[test]
fn in_tree_entries() {
    assert!(is_in_tree("a.dll"));
    assert!(is_in_tree("sub\\a.dll"));
    assert!(is_in_tree("sub/../a.dll"));
    assert!(is_in_tree("./a.dll"));
    assert!(is_in_tree(""));
    assert!(is_in_tree("a/b/../../c"));
}

#[test]
fn escaping_entries() {
    assert!(!is_in_tree("..\\a.dll"));
    assert!(!is_in_tree("sub/../../a.dll"));
    assert!(!is_in_tree("C:\\a.dll"));
    assert!(!is_in_tree("C:a.dll"));
    assert!(!is_in_tree("\\a.dll"));
    assert!(!is_in_tree("/a.dll"));
    assert!(!is_in_tree(".."));
    assert!(!is_in_tree("a/../.."));
}

#[test]
fn join_adds_one_separator() {
    assert_eq!(join_entry("C:\\plugins", "a.dll"), "C:\\plugins\\a.dll");
    assert_eq!(join_entry("C:\\plugins\\", "a.dll"), "C:\\plugins\\a.dll");
    assert_eq!(join_entry("/opt/x/", "sub/a.dll"), "/opt/x/sub/a.dll");
    assert_eq!(join_entry("", "a.dll"), "a.dll");
}

#[test]
fn merge_replaces_notches_and_ratchets_constant_speed() {
    let agg = handles(1, 2, 1, ATS_CONSTANTSPEED_DISABLE);
    let p = handles(4, 0, -1, ATS_CONSTANTSPEED_CONTINUE);
    assert_eq!(merge_handles(&agg, &p), handles(4, 0, -1, ATS_CONSTANTSPEED_DISABLE));
    let agg = handles(1, 2, 1, ATS_CONSTANTSPEED_CONTINUE);
    let p = handles(3, 5, 0, ATS_CONSTANTSPEED_ENABLE);
    assert_eq!(merge_handles(&agg, &p), handles(3, 5, 0, ATS_CONSTANTSPEED_ENABLE));
}

#[test]
fn load_all_in_tree_entries() {
    let mut reg: Registry<String> = Registry::new();
    let opened = RefCell::new(Vec::new());
    let r = reg.load_manifest("C:\\ats", "a.dll\r\nsub\\b.dll\n", |p: &str| -> Opened<String> {
        opened.borrow_mut().push(p.to_string());
        Ok(ChildModule::new(p.to_string(), Capabilities::none()))
    });
    assert!(r.is_ok());
    assert_eq!(reg.len(), 2);
    assert_eq!(opened.into_inner(), vec!["C:\\ats\\a.dll".to_string(), "C:\\ats\\sub\\b.dll".to_string()]);
    assert_eq!(reg.child(0).module, "C:\\ats\\a.dll");
    assert_eq!(reg.child(1).module, "C:\\ats\\sub\\b.dll");
    assert_eq!(reg.child(0).last_input, None);
}

#[test]
fn escaping_entry_is_skipped_and_reported_last() {
    let mut reg: Registry<String> = Registry::new();
    let calls = RefCell::new(0);
    let r = reg.load_manifest("C:\\ats", "a.dll\n..\\evil.dll\nb.dll\nC:\\x.dll", |p: &str| -> Opened<String> {
        *calls.borrow_mut() += 1;
        Ok(ChildModule::new(p.to_string(), Capabilities::none()))
    });
    assert_eq!(calls.into_inner(), 2);
    assert_eq!(reg.len(), 2);
    let e = r.unwrap_err();
    assert_eq!(e.path, "C:\\x.dll");
    assert_eq!(e.cause, LoadCause::PathEscape);
}

#[test]
fn escaping_entry_in_the_middle_still_fails_the_load() {
    let mut reg: Registry<String> = Registry::new();
    let r = reg.load_manifest("base", "a.dll\n../b.dll\nc.dll\n", |p: &str| -> Opened<String> {
        Ok(ChildModule::new(p.to_string(), Capabilities::none()))
    });
    assert_eq!(reg.len(), 2);
    let e = r.unwrap_err();
    assert_eq!(e.path, "../b.dll");
    assert_eq!(e.cause, LoadCause::PathEscape);
}

#[test]
fn last_load_failure_is_reported() {
    let mut reg: Registry<String> = Registry::new();
    let r = reg.load_manifest("d", "missing1.dll\nok.dll\nmissing2.dll\nok2.dll", |p: &str| -> Opened<String> {
        if p.contains("missing1") {
            Err(2)
        } else if p.contains("missing2") {
            Err(126)
        } else {
            Ok(ChildModule::new(p.to_string(), Capabilities::none()))
        }
    });
    assert_eq!(reg.len(), 2);
    assert_eq!(reg.child(0).module, "d\\ok.dll");
    assert_eq!(reg.child(1).module, "d\\ok2.dll");
    let e = r.unwrap_err();
    assert_eq!(e.path, "d\\missing2.dll");
    assert_eq!(e.cause, LoadCause::ModuleLoadFailure(126));
}

#[test]
fn loading_appends_to_existing_children() {
    let mut reg = registry_of(vec![child("a", caps_all(), handles(0, 0, 0, 0))]);
    let r = reg.load_manifest("base", "b\n", |p: &str| -> Opened<Fake> {
        Ok(child(p, caps_all(), handles(0, 0, 0, 0)))
    });
    assert!(r.is_ok());
    assert_eq!(reg.len(), 2);
    assert_eq!(reg.child(0).module.name, "a");
    assert_eq!(reg.child(1).module.name, "base\\b");
}

#[test]
fn enable_survives_child_without_elapse() {
    let a = child("a", caps_all(), handles(0, 0, 0, ATS_CONSTANTSPEED_ENABLE));
    let b = child("b", Capabilities { elapse: false, ..caps_all() }, handles(9, 9, 9, 0));
    let mut reg = registry_of(vec![a, b]);
    let (r, _, ran) = frame(&mut reg);
    assert_eq!(r.constant_speed, ATS_CONSTANTSPEED_ENABLE);
    assert_eq!(ran, vec!["a".to_string()]);
}

#[test]
fn disable_is_not_undone_by_continue() {
    let a = child("a", caps_all(), handles(1, 0, 1, ATS_CONSTANTSPEED_DISABLE));
    let b = child("b", caps_all(), handles(2, 0, 1, ATS_CONSTANTSPEED_CONTINUE));
    let mut reg = registry_of(vec![a, b]);
    let (r, _, _) = frame(&mut reg);
    assert_eq!(r, handles(2, 0, 1, ATS_CONSTANTSPEED_DISABLE));
}

#[test]
fn host_power_seeds_the_frame() {
    let a = child("a", Capabilities { set_power: false, ..caps_all() }, handles(3, 0, 0, 0));
    let mut reg = registry_of(vec![a]);
    reg.set_power(5);
    assert_eq!(reg.begin_elapse(), handles(5, 0, 0, ATS_CONSTANTSPEED_CONTINUE));
    let (r, told, _) = frame(&mut reg);
    assert_eq!(told.len(), 1);
    assert_eq!(told[0].1.power, None);
    assert_eq!(reg.child(0).last_input.map(|h| h.power), Some(5));
    assert_eq!(r.power, 3);
}

#[test]
fn reordering_conflicting_children() {
    let a = handles(2, 0, 1, ATS_CONSTANTSPEED_DISABLE);
    let b = handles(4, 0, 1, ATS_CONSTANTSPEED_CONTINUE);
    let mut ab = registry_of(vec![child("a", caps_all(), a), child("b", caps_all(), b)]);
    let mut ba = registry_of(vec![child("b", caps_all(), b), child("a", caps_all(), a)]);
    let (r1, _, _) = frame(&mut ab);
    let (r2, _, _) = frame(&mut ba);
    assert_eq!(r1.power, 4);
    assert_eq!(r2.power, 2);
    assert_eq!(r1.constant_speed, ATS_CONSTANTSPEED_DISABLE);
    assert_eq!(r2.constant_speed, ATS_CONSTANTSPEED_DISABLE);
}

#[test]
fn setters_follow_the_running_instruction() {
    let a = child("a", caps_all(), handles(4, 1, 1, 0));
    let b = child("b", caps_all(), handles(4, 2, 1, 0));
    let mut reg = registry_of(vec![a, b]);
    reg.set_power(1);
    reg.set_brake(1);
    reg.set_reverser(1);
    let (_, told, _) = frame(&mut reg);
    // first frame: nobody has seen anything yet
    assert_eq!(told[0].1, ChildStep { power: Some(1), brake: Some(1), reverser: Some(1), elapse: true });
    // b sees a's proposal
    assert_eq!(told[1].1, ChildStep { power: Some(4), brake: Some(1), reverser: Some(1), elapse: true });
    reg.set_brake(3);
    let (_, told, _) = frame(&mut reg);
    assert_eq!(told[0].1, ChildStep { power: None, brake: Some(3), reverser: None, elapse: true });
    // a proposes what it proposed before, so b has nothing new to learn
    assert_eq!(told[1].1, ChildStep { power: None, brake: None, reverser: None, elapse: true });
}

#[test]
fn repeated_frame_calls_no_setter() {
    let a = child("a", caps_all(), handles(4, 1, 1, 0));
    let b = child("b", caps_all(), handles(2, 2, 0, 1));
    let mut reg = registry_of(vec![a, b]);
    reg.set_power(3);
    reg.set_reverser(-1);
    let (r1, first, _) = frame(&mut reg);
    assert!(first.iter().any(|(_, s)| s.power.is_some()));
    let (r2, second, _) = frame(&mut reg);
    assert_eq!(r1, r2);
    assert_eq!(second.len(), 2);
    for (_, s) in second {
        assert_eq!((s.power, s.brake, s.reverser), (None, None, None));
    }
}

#[test]
fn released_registry_returns_host_inputs() {
    let a = child("a", caps_all(), handles(4, 1, 1, 2));
    let mut reg = registry_of(vec![a]);
    reg.set_power(2);
    reg.set_brake(6);
    reg.set_reverser(1);
    let (r, _, _) = frame(&mut reg);
    assert_eq!(r, handles(4, 1, 1, 2));
    reg.release_all();
    assert_eq!(reg.len(), 0);
    let (r, told, ran) = frame(&mut reg);
    assert_eq!(r, handles(2, 6, 1, ATS_CONSTANTSPEED_CONTINUE));
    assert!(told.is_empty());
    assert!(ran.is_empty());
}

#[test]
fn recipients_in_registration_order() {
    let a = child("a", Capabilities { key_down: true, ..Capabilities::none() }, handles(0, 0, 0, 0));
    let b = child("b", Capabilities::none(), handles(0, 0, 0, 0));
    let c = child("c", Capabilities { key_down: true, dispose: true, ..Capabilities::none() }, handles(0, 0, 0, 0));
    let reg = registry_of(vec![a, b, c]);
    assert_eq!(reg.recipients(EntryPoint::KeyDown), vec![0, 2]);
    assert_eq!(reg.recipients(EntryPoint::Dispose), vec![2]);
    assert_eq!(reg.recipients(EntryPoint::HornBlow), Vec::<usize>::new());
}

#[test]
fn new_registry_is_empty() {
    let reg: Registry<u8> = Registry::new();
    assert_eq!(reg.len(), 0);
    assert_eq!(reg.begin_elapse(), handles(0, 0, 0, 0));
}
