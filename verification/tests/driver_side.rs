use driver_ipc::framing::{frame_message, split_frames, EOF};
use driver_ipc::listener::{
    add_monitors, length_accepted, merge_monitors, message_length, remove_all_until_detached,
    remove_listed,
};
use driver_ipc::mock::MockServer;
use driver_ipc::model::{DriverCommand, Mode, Monitor, RequestCommand, ServerCommand};
use driver_ipc::registry::{
    current_state, handle_command, mark_attached, monitor_count, notify, remove, remove_all,
    MonitorObject,
};
use driver_ipc::signal::{
    description_buffer_action, display_info, flatten, mode_count, target_buffer_action, target_mode,
    BufferAction, FlattenModes, Rational, Region,
};

fn mode(width: u32, height: u32, rates: &[u32]) -> Mode {
    Mode { width, height, refresh_rates: rates.to_vec() }
}

fn monitor(id: u32, name: Option<&str>, enabled: bool, modes: Vec<Mode>) -> Monitor {
    Monitor { id, name: name.map(|n| n.to_string()), enabled, modes }
}

fn same_monitor(a: &Monitor, b: &Monitor) -> bool {
    a.id == b.id
        && a.name == b.name
        && a.enabled == b.enabled
        && a.modes.len() == b.modes.len()
        && a.modes.iter().zip(b.modes.iter()).all(|(x, y)| {
            x.width == y.width && x.height == y.height && x.refresh_rates == y.refresh_rates
        })
}

fn same_monitors(a: &[Monitor], b: &[Monitor]) -> bool {
    a.len() == b.len() && a.iter().zip(b.iter()).all(|(x, y)| same_monitor(x, y))
}

fn first_set() -> Vec<Monitor> {
    vec![monitor(0, Some("test"), true, vec![mode(1920, 1080, &[60])])]
}

fn second_set() -> Vec<Monitor> {
    vec![
        monitor(0, Some("test1"), false, vec![mode(100, 200, &[80, 90])]),
        monitor(1, Some("test2"), true, vec![mode(300, 400, &[50])]),
    ]
}

#[test]
fn mock_server_serves_a_session() {
    let mut server = MockServer::new();
    let out = server.pump(ServerCommand::Request(RequestCommand::State));
    assert!(out.reply.as_ref().map_or(false, |r| r.is_empty()));
    assert!(!out.changed);

    let out = server.pump(ServerCommand::Driver(DriverCommand::Notify(first_set())));
    assert!(out.reply.is_none());
    assert!(out.changed);
    assert!(same_monitors(server.state(), &first_set()));

    let out = server.pump(ServerCommand::Request(RequestCommand::State));
    assert!(same_monitors(out.reply.as_ref().unwrap(), &first_set()));

    let out = server.pump(ServerCommand::Driver(DriverCommand::Notify(second_set())));
    assert!(out.changed);
    assert!(same_monitors(server.state(), &second_set()));

    let out = server.pump(ServerCommand::Driver(DriverCommand::Remove(vec![0])));
    assert!(out.changed);
    assert_eq!(server.state().len(), 1);
    assert_eq!(server.state()[0].id, 1);

    let out = server.pump(ServerCommand::Driver(DriverCommand::RemoveAll));
    assert!(out.changed);
    assert!(server.state().is_empty());
}

#[test]
fn mock_server_set_state_reports_change() {
    let mut server = MockServer::new();
    assert!(server.set_state(first_set()));
    assert!(!server.set_state(first_set()));
    assert!(server.set_state(second_set()));
    assert!(same_monitors(server.state(), &second_set()));
}

#[test]
fn framing_round_trip() {
    let a = frame_message(b"{\"a\":1}");
    assert_eq!(a.last(), Some(&EOF));
    assert_eq!(a.len(), 8);
    let mut buf = a.clone();
    buf.extend(frame_message(b"xy"));
    buf.extend_from_slice(b"partial");
    let (frames, consumed) = split_frames(&buf);
    assert_eq!(frames, vec![b"{\"a\":1}".to_vec(), b"xy".to_vec()]);
    assert_eq!(consumed, 11);
    let (frames, consumed) = split_frames(b"no end");
    assert!(frames.is_empty());
    assert_eq!(consumed, 0);
}

#[test]
fn registry_notify_adds_and_updates() {
    let mut reg: Vec<MonitorObject> = Vec::new();
    let plan = notify(&mut reg, second_set());
    assert!(plan.departures.is_empty());
    assert_eq!(plan.arrivals, vec![(0, false), (1, true)]);
    assert_eq!(monitor_count(&reg), 2);
    assert!(mark_attached(&mut reg, 1));
    assert!(!mark_attached(&mut reg, 7));

    // Monitor 1's modes change: it is detached and attached again; monitor
    // 0 is switched on; a monitor not sent any more would be dropped.
    let update = vec![
        monitor(0, None, true, vec![mode(100, 200, &[80, 90])]),
        monitor(1, None, true, vec![mode(640, 480, &[60])]),
    ];
    let plan = notify(&mut reg, update);
    assert_eq!(plan.departures, vec![1]);
    assert_eq!(plan.arrivals, vec![(0, true), (1, true)]);

    let state = current_state(&reg);
    assert_eq!(state.len(), 2);
    assert_eq!(state[1].modes[0].width, 640);
}

#[test]
fn registry_notify_drops_unsent_and_ignores_duplicates() {
    let mut reg: Vec<MonitorObject> = Vec::new();
    notify(&mut reg, second_set());
    assert!(mark_attached(&mut reg, 1));
    let plan = notify(&mut reg, vec![monitor(0, None, false, vec![mode(100, 200, &[80, 90])])]);
    assert_eq!(plan.departures, vec![1]);
    assert_eq!(monitor_count(&reg), 1);

    let dup = vec![monitor(5, None, true, vec![]), monitor(5, None, true, vec![])];
    let plan = notify(&mut reg, dup);
    assert!(plan.departures.is_empty() && plan.arrivals.is_empty());
    assert_eq!(monitor_count(&reg), 1);
}

#[test]
fn registry_remove_and_remove_all() {
    let mut reg: Vec<MonitorObject> = Vec::new();
    notify(&mut reg, second_set());
    assert!(mark_attached(&mut reg, 1));
    assert_eq!(remove(&mut reg, &[1, 3]), vec![1]);
    assert_eq!(monitor_count(&reg), 1);
    assert_eq!(remove_all(&mut reg), Vec::<u32>::new());
    assert_eq!(monitor_count(&reg), 0);
}

#[test]
fn listener_length_field() {
    assert_eq!(message_length([1, 0, 0, 0, 0, 0, 0, 0]), 1);
    assert_eq!(message_length([0, 1, 0, 0, 0, 0, 0, 0]), 256);
    assert_eq!(message_length(1048576u64.to_le_bytes()), 1048576);
    assert_eq!(message_length([255; 8]), u64::MAX);
    assert!(length_accepted(1048575));
    assert!(!length_accepted(1048576));
}

#[test]
fn listener_add_refuses_known_ids() {
    let mut reg: Vec<MonitorObject> = Vec::new();
    let out = add_monitors(&mut reg, second_set());
    assert_eq!(out.created, vec![0, 1]);
    assert!(out.refused.is_empty());
    let out = add_monitors(&mut reg, vec![monitor(1, None, true, vec![]), monitor(2, None, true, vec![])]);
    assert_eq!(out.created, vec![2]);
    assert_eq!(out.refused, vec![1]);
    assert_eq!(monitor_count(&reg), 3);
}

#[test]
fn listener_merge_keeps_unsent() {
    let mut reg: Vec<MonitorObject> = Vec::new();
    merge_monitors(&mut reg, second_set());
    assert!(mark_attached(&mut reg, 1));
    let plan = merge_monitors(&mut reg, vec![monitor(0, None, true, vec![mode(100, 200, &[80, 90])])]);
    assert!(plan.departures.is_empty());
    assert_eq!(plan.arrivals, vec![(0, true)]);
    assert_eq!(monitor_count(&reg), 2);
    // switching an attached monitor off detaches it
    let plan = merge_monitors(&mut reg, vec![monitor(1, None, false, vec![mode(300, 400, &[50])])]);
    assert_eq!(plan.departures, vec![1]);
    assert_eq!(plan.arrivals, vec![(1, false)]);
}

#[test]
fn listener_remove_all_stops_at_detached() {
    let mut reg: Vec<MonitorObject> = Vec::new();
    add_monitors(
        &mut reg,
        vec![monitor(0, None, true, vec![]), monitor(1, None, true, vec![]), monitor(2, None, true, vec![])],
    );
    assert!(mark_attached(&mut reg, 0));
    assert!(mark_attached(&mut reg, 2));
    let (departures, stopped) = remove_all_until_detached(&mut reg);
    assert_eq!(departures, vec![0]);
    assert!(stopped);
    assert_eq!(monitor_count(&reg), 0);
}

#[test]
fn signal_display_info_values() {
    let info = display_info(1920, 1080, 60);
    assert_eq!(info.pixel_rate, 70504360);
    assert_eq!(info.h_sync_freq, Rational { numerator: 70504360, denominator: 1084 });
    assert_eq!(info.v_sync_freq, Rational { numerator: 70504360, denominator: 1175056 });
    assert_eq!(info.active_size, Region { cx: 1920, cy: 1080 });
    assert_eq!(info.total_size, Region { cx: 1924, cy: 1084 });
    assert_eq!(info.video_standard, 255);
    assert_eq!(info.v_sync_freq_divider, 0);
}

#[test]
fn signal_target_mode_values() {
    let info = target_mode(1920, 1080, 60);
    assert_eq!(info.pixel_rate, 124416000);
    assert_eq!(info.h_sync_freq, Rational { numerator: 64800, denominator: 1 });
    assert_eq!(info.v_sync_freq, Rational { numerator: 60, denominator: 1 });
    assert_eq!(info.total_size, Region { cx: 1920, cy: 1080 });
    assert_eq!(info.v_sync_freq_divider, 1);
}

#[test]
fn signal_flatten_and_count() {
    let modes = vec![mode(1920, 1080, &[60, 144]), mode(800, 600, &[]), mode(640, 480, &[30])];
    let items = flatten(&modes);
    let pairs: Vec<(u32, u32, u32)> = items.iter().map(|i| (i.width, i.height, i.refresh_rate)).collect();
    assert_eq!(pairs, vec![(1920, 1080, 60), (1920, 1080, 144), (640, 480, 30)]);
    assert_eq!(modes.flatten().len(), 3);
    assert_eq!(mode_count(&modes), 3);
}

#[test]
fn signal_buffer_actions() {
    assert_eq!(description_buffer_action(0, 3), BufferAction::CountOnly);
    assert_eq!(description_buffer_action(2, 3), BufferAction::TooSmall);
    assert_eq!(description_buffer_action(3, 3), BufferAction::Fill);
    assert_eq!(target_buffer_action(2, 3), BufferAction::CountOnly);
    assert_eq!(target_buffer_action(4, 3), BufferAction::Fill);
}

fn attached_three() -> Vec<MonitorObject> {
    let mut reg: Vec<MonitorObject> = Vec::new();
    add_monitors(
        &mut reg,
        vec![monitor(0, None, true, vec![]), monitor(1, None, true, vec![]), monitor(2, None, true, vec![])],
    );
    for id in 0..3 {
        assert!(mark_attached(&mut reg, id));
    }
    reg
}

fn reg_ids(reg: &[MonitorObject]) -> Vec<u32> {
    reg.iter().map(|o| o.data.id).collect()
}

#[test]
fn listener_remove_listed_in_marked_order() {
    let mut reg = attached_three();
    let (departures, stopped) = remove_listed(&mut reg, &[2, 0]);
    assert_eq!(departures, vec![2, 0]);
    assert!(!stopped);
    assert_eq!(reg_ids(&reg), vec![1]);
}

#[test]
fn listener_remove_listed_by_id() {
    // Every monitor with a listed id goes, whatever its position.
    let mut reg = attached_three();
    let (departures, stopped) = remove_listed(&mut reg, &[0, 1]);
    assert_eq!(departures, vec![0, 1]);
    assert!(!stopped);
    assert_eq!(reg_ids(&reg), vec![2]);
}

#[test]
fn listener_remove_listed_stops_at_detached() {
    let mut reg: Vec<MonitorObject> = Vec::new();
    add_monitors(&mut reg, vec![monitor(0, None, true, vec![]), monitor(1, None, true, vec![])]);
    assert!(mark_attached(&mut reg, 0));
    let (departures, stopped) = remove_listed(&mut reg, &[0, 1]);
    assert_eq!(departures, vec![0]);
    assert!(stopped);
    assert_eq!(reg_ids(&reg), vec![0, 1]);
}

#[test]
fn driver_handles_client_commands() {
    let mut reg: Vec<MonitorObject> = Vec::new();
    let res = handle_command(&mut reg, ServerCommand::Driver(DriverCommand::Notify(second_set())));
    assert_eq!(res.arrivals, vec![(0, false), (1, true)]);
    assert!(same_monitors(res.changed.as_ref().unwrap(), &second_set()));
    assert!(res.reply.is_none());
    let res = handle_command(&mut reg, ServerCommand::Request(RequestCommand::State));
    assert!(res.changed.is_none());
    assert!(same_monitors(res.reply.as_ref().unwrap(), &second_set()));
    assert!(mark_attached(&mut reg, 1));
    let res = handle_command(&mut reg, ServerCommand::Driver(DriverCommand::Remove(vec![1])));
    assert_eq!(res.departures, vec![1]);
    assert_eq!(res.changed.as_ref().map(|c| c.len()), Some(1));
    let res = handle_command(&mut reg, ServerCommand::Driver(DriverCommand::RemoveAll));
    assert!(res.departures.is_empty());
    assert_eq!(res.changed.as_ref().map(|c| c.len()), Some(0));
    assert_eq!(monitor_count(&reg), 0);
}
