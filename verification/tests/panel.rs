use driver_ipc::ipc_types::{DriverCommand, MonitorProperties};
use driver_ipc::panel::{
    add_monitor, driver_command, edited_value, field_text, registry_monitors, AddResolutionWindow,
    IntoIpc, ModeEntry, Monitor, MonitorMode, MonitorState, RefreshRate, RemovePending,
};

fn state(id: u32) -> MonitorState {
    MonitorState {
        name: String::new(),
        enabled: true,
        monitor: Monitor { id, modes: None },
        monitor_window: false,
        tmp_w: 0,
        tmp_h: 0,
        tmp_r: 0,
        tmp_add: 0,
    }
}

fn add_resolution(s: &mut MonitorState, w: u32, h: u32, r: u32) {
    s.tmp_w = w;
    s.tmp_h = h;
    s.tmp_r = r;
    AddResolutionWindow::add_resolution(s);
}

fn keys(s: &MonitorState) -> Vec<String> {
    s.monitor.modes.as_ref().map_or(vec![], |m| m.iter().map(|e| e.key.clone()).collect())
}

fn props(p: &[MonitorProperties]) -> Vec<(u32, u32, u32)> {
    p.iter().map(|x| (x.width, x.height, x.refresh_rate)).collect()
}

#[test]
fn add_resolution_keeps_key_order() {
    let _window = AddResolutionWindow::new();
    let mut s = state(1);
    add_resolution(&mut s, 800, 600, 60);
    assert_eq!((s.tmp_w, s.tmp_h, s.tmp_r), (0, 0, 0));
    add_resolution(&mut s, 1920, 1080, 144);
    add_resolution(&mut s, 1280, 720, 60);
    assert_eq!(keys(&s), vec!["1280x720", "1920x1080", "800x600"]);
    let entries = s.monitor.modes.as_ref().unwrap();
    assert!(entries.iter().all(|e| e.mode.pending));
    assert_eq!(entries[1].mode.refresh_rates, vec![RefreshRate { rate: 144, pending: true }]);
}

#[test]
fn add_resolution_ignores_existing_or_incomplete() {
    let mut s = state(1);
    add_resolution(&mut s, 800, 600, 60);
    add_resolution(&mut s, 800, 600, 75);
    assert_eq!(s.tmp_r, 75);
    assert_eq!(keys(&s), vec!["800x600"]);
    add_resolution(&mut s, 1024, 0, 60);
    assert_eq!(keys(&s), vec!["800x600"]);
    assert_eq!(s.tmp_w, 1024);
}

#[test]
fn pending_changes_are_not_sent() {
    let mut s = state(3);
    add_resolution(&mut s, 800, 600, 60);
    assert!(s.needs_setup());
    assert!(props(&s.monitor.to_ipc().properties).is_empty());
    s.monitor.clear_pending();
    assert!(!s.needs_setup());
    assert_eq!(props(&s.monitor.to_ipc().properties), vec![(800, 600, 60)]);
    s.tmp_add = 75;
    s.add_refresh_rate("800x600");
    assert_eq!(s.tmp_add, 0);
    assert_eq!(props(&s.monitor.to_ipc().properties), vec![(800, 600, 60)]);
    let before = props(&s.monitor.to_ipc().properties);
    s.monitor.remove_pending();
    assert_eq!(props(&s.monitor.to_ipc().properties), before);
    let rates = &s.monitor.modes.as_ref().unwrap()[0].mode.refresh_rates;
    assert_eq!(rates, &vec![RefreshRate { rate: 60, pending: false }]);
}

#[test]
fn add_refresh_rate_skips_known_rate() {
    let mut s = state(3);
    add_resolution(&mut s, 800, 600, 60);
    s.tmp_add = 60;
    s.add_refresh_rate("800x600");
    assert_eq!(s.tmp_add, 60);
    assert_eq!(s.monitor.modes.as_ref().unwrap()[0].mode.refresh_rates.len(), 1);
    s.add_refresh_rate("nope");
    assert_eq!(s.tmp_add, 60);
}

#[test]
fn removing_last_rate_removes_mode_and_monitor() {
    let mut s = state(9);
    add_resolution(&mut s, 800, 600, 60);
    add_resolution(&mut s, 640, 480, 30);
    assert!(s.remove_refresh_rate("800x600", 0).is_none());
    assert_eq!(keys(&s), vec!["640x480"]);
    match s.remove_refresh_rate("640x480", 0) {
        Some(DriverCommand::Remove(ids)) => assert_eq!(ids, vec![9]),
        _ => panic!("expected a removal"),
    }
    assert!(!s.enabled);
    assert!(keys(&s).is_empty());
}

#[test]
fn remove_mode_last_one_disables() {
    let mut s = state(4);
    add_resolution(&mut s, 800, 600, 60);
    add_resolution(&mut s, 640, 480, 30);
    assert!(s.remove_mode("640x480").is_none());
    assert!(s.enabled);
    assert!(matches!(s.remove_mode("800x600"), Some(DriverCommand::Remove(_))));
    assert!(!s.enabled);
}

#[test]
fn delete_and_toggle_commands() {
    let mut s = state(2);
    assert!(s.delete_command().is_none());
    assert!(s.toggle_command(true).is_none());
    add_resolution(&mut s, 800, 600, 60);
    s.monitor.clear_pending();
    assert!(matches!(s.delete_command(), Some(DriverCommand::Remove(ref ids)) if *ids == vec![2]));
    match s.toggle_command(true) {
        Some(DriverCommand::Add(ms)) => {
            assert_eq!(ms.len(), 1);
            assert_eq!(ms[0].id, 2);
            assert_eq!(props(&ms[0].properties), vec![(800, 600, 60)]);
        },
        _ => panic!("expected an add"),
    }
    assert!(s.toggle_command(false).is_none());
    s.enabled = false;
    assert!(matches!(s.toggle_command(true), Some(DriverCommand::Remove(_))));
    assert!(s.delete_command().is_none());
}

#[test]
fn titles_and_labels() {
    let mut s = state(5);
    assert_eq!(s.title(), "Monitor 5");
    s.name = "Desk".to_string();
    assert_eq!(s.title(), "Desk");
    let e = ModeEntry {
        key: "800x600".to_string(),
        mode: MonitorMode { width: 800, height: 600, refresh_rates: vec![], pending: true },
    };
    assert_eq!(e.label(), "*800x600");
    assert_eq!(RefreshRate { rate: 60, pending: false }.label(), "60");
    assert_eq!(RefreshRate { rate: 75, pending: true }.label(), "*75");
}

#[test]
fn number_boxes() {
    assert_eq!(edited_value("1920", 5), 1920);
    assert_eq!(edited_value("", 5), 0);
    assert_eq!(edited_value("19a", 5), 5);
    assert_eq!(edited_value("+7", 5), 7);
    assert_eq!(field_text(0), "");
    assert_eq!(field_text(60), "60");
}

#[test]
fn add_monitor_fills_first_gap() {
    let mut ms = vec![state(1), state(2), state(4)];
    assert!(add_monitor(&mut ms));
    let ids: Vec<u32> = ms.iter().map(|s| s.monitor.id).collect();
    assert_eq!(ids, vec![1, 2, 3, 4]);
    assert!(!ms[2].enabled);
    assert!(add_monitor(&mut ms));
    assert_eq!(ms[4].monitor.id, 5);
    let mut full: Vec<MonitorState> = (1..=10).map(state).collect();
    assert!(!add_monitor(&mut full));
    assert_eq!(full.len(), 10);
}

#[test]
fn main_switch_and_saved_data() {
    let mut a = state(1);
    add_resolution(&mut a, 800, 600, 60);
    a.monitor.clear_pending();
    add_resolution(&mut a, 1024, 768, 60);
    let b = state(2);
    let ms = vec![a, b];
    assert!(matches!(driver_command(false, &ms), DriverCommand::RemoveAll));
    match driver_command(true, &ms) {
        DriverCommand::Add(flat) => {
            assert_eq!(flat.len(), 2);
            assert_eq!(props(&flat[0].properties), vec![(800, 600, 60)]);
            assert!(flat[1].properties.is_empty());
        },
        _ => panic!("expected an add"),
    }
    assert!(registry_monitors(false, &ms).is_empty());
    let saved = registry_monitors(true, &ms);
    assert_eq!(props(&saved[0].properties), vec![(800, 600, 60)]);
    let cleaned = ms.remove_pending();
    assert_eq!(keys(&cleaned[0]), vec!["800x600"]);
    let flat = cleaned.into_monitors();
    assert_eq!(flat.len(), 2);
}

#[test]
fn dropping_pending_twice_is_dropping_once() {
    let mut s = state(6);
    add_resolution(&mut s, 800, 600, 60);
    s.monitor.clear_pending();
    add_resolution(&mut s, 640, 480, 30);
    s.tmp_add = 75;
    s.add_refresh_rate("800x600");
    s.monitor.remove_pending();
    let once = keys(&s);
    let once_rates = s.monitor.modes.as_ref().unwrap()[0].mode.refresh_rates.clone();
    s.monitor.remove_pending();
    assert_eq!(keys(&s), once);
    assert_eq!(s.monitor.modes.as_ref().unwrap()[0].mode.refresh_rates, once_rates);
    assert_eq!(once, vec!["800x600"]);
    assert_eq!(once_rates, vec![RefreshRate { rate: 60, pending: false }]);
}
