use driver_ipc::bindings::apply_settings;
use driver_ipc::client_errors::{
    AddModeError, ConnectionError, DuplicateError, MonitorNotFoundError, ReceiveError, RequestError,
    SendError,
};
use driver_ipc::client_steps::{
    event_step, request_step, request_wait_left, write_progress, EventStep, Received, RequestStep,
    REQUEST_TIMEOUT_MS, REQUEST_TIMEOUT_SECS,
};
use driver_ipc::driver_client::{AddModeError as CoreAddModeError, MonNotFound};
use driver_ipc::lazy::LazyLock;
use driver_ipc::logger::{DriverLogger, Level, LogTargets};
use driver_ipc::model::{ClientCommand, EventCommand, Mode, Monitor, ReplyCommand};
use driver_ipc::pipe_server::{change_recipients, change_step, forwards_change, Broadcast, ChangeStep};
use driver_ipc::py_list::{append_plan, get_index, ItemKind, ListType, PyItem, PyValue};
use driver_ipc::py_monitors::{ModeAccessError, MonitorSet};
use driver_ipc::session::{ServiceAction, ServiceEvent, SessionTracker};
use driver_ipc::text::{parse_u32, str_eq};
use driver_ipc::validation::DuplicateError as CoreDuplicateError;

fn mode(width: u32, height: u32, rates: &[u32]) -> Mode {
    Mode { width, height, refresh_rates: rates.to_vec() }
}

fn monitor(id: u32, modes: Vec<Mode>) -> Monitor {
    Monitor { id, name: None, enabled: true, modes }
}

#[test]
fn logger_levels_and_targets() {
    let mut logger = DriverLogger::new(Level::Info);
    assert_eq!(logger.targets(Level::Error), LogTargets { debugger: false, event_log: false });
    assert!(logger.debug().name("VirtualDisplayDriver", Ok(())).is_ok());
    assert_eq!(logger.event_source().map(|s| s.as_str()), Some("VirtualDisplayDriver"));
    assert!(logger.enabled(Level::Error));
    assert!(logger.enabled(Level::Info));
    assert!(!logger.enabled(Level::Debug));
    assert_eq!(logger.targets(Level::Warn), LogTargets { debugger: true, event_log: true });
    assert_eq!(logger.targets(Level::Trace), LogTargets { debugger: false, event_log: false });
    assert_eq!(Level::Trace.rank(), 5);
}

#[test]
fn python_indexing() {
    assert_eq!(get_index(3, 0), Some(0));
    assert_eq!(get_index(3, 2), Some(2));
    assert_eq!(get_index(3, 3), None);
    assert_eq!(get_index(3, -1), Some(2));
    assert_eq!(get_index(3, -3), Some(0));
    assert_eq!(get_index(3, -4), None);
    assert_eq!(get_index(0, -1), Some(0));
    assert_eq!(get_index(0, 0), None);
    assert_eq!(get_index(5, isize::MIN), None);
}

#[test]
fn monitor_set_upsert_and_queue() {
    let mut set = MonitorSet::new(vec![monitor(1, vec![]), monitor(2, vec![])]);
    assert!(set.contains(2) && !set.contains(3));
    assert_eq!(set.del_item(2), Ok(()));
    assert_eq!(set.del_item(2), Err(MonNotFound(2)));
    set.set_item(monitor(3, vec![mode(1, 1, &[1])]));
    assert_eq!(set.len(), 2);
    set.set_item(monitor(2, vec![]));
    let ids: Vec<u32> = set.monitors().iter().map(|m| m.id).collect();
    assert_eq!(ids, vec![1, 3, 2]);
    assert!(set.take_removals().is_empty());
    assert_eq!(set.del_item(1), Ok(()));
    set.set_item(Monitor { id: 3, name: Some("x".to_string()), enabled: false, modes: vec![] });
    assert_eq!(set.monitors()[0].name.as_deref(), Some("x"));
    assert_eq!(set.take_removals(), vec![1]);
    assert!(set.take_removals().is_empty());
}

#[test]
fn monitor_set_remove_ids_stops_at_unknown() {
    let mut set = MonitorSet::new(vec![monitor(1, vec![]), monitor(2, vec![]), monitor(3, vec![])]);
    assert_eq!(set.remove_ids(&[1, 9, 3]), Err(MonNotFound(9)));
    let ids: Vec<u32> = set.monitors().iter().map(|m| m.id).collect();
    assert_eq!(ids, vec![2, 3]);
    assert_eq!(set.remove_ids(&[3]), Ok(()));
    set.remove_all();
    assert_eq!(set.len(), 0);
}

#[test]
fn monitor_set_modes() {
    let mut set = MonitorSet::new(vec![monitor(1, vec![mode(10, 10, &[1])])]);
    assert_eq!(set.set_mode(1, 3, mode(1, 1, &[])), Err(ModeAccessError::OutOfRange(3)));
    assert_eq!(set.set_mode(7, 0, mode(1, 1, &[])), Err(ModeAccessError::MonitorNotFound(7)));
    assert_eq!(set.set_mode(1, 0, mode(20, 20, &[2])), Ok(()));
    assert_eq!(set.push_modes(1, vec![mode(30, 30, &[3]), mode(40, 40, &[4])]), Ok(()));
    assert_eq!(set.modes_of(1).map(|m| m.len()), Ok(3));
    let removed = set.remove_mode(1, 1).expect("in range");
    assert_eq!(removed.width, 30);
    assert_eq!(set.remove_mode(1, 5).err(), Some(ModeAccessError::OutOfRange(5)));
    let widths: Vec<u32> = set.modes_of(1).unwrap().iter().map(|m| m.width).collect();
    assert_eq!(widths, vec![20, 40]);
    assert_eq!(set.push_modes(8, vec![]), Err(MonNotFound(8)));
    assert_eq!(set.replace_monitor(monitor(1, vec![])), Ok(()));
    assert_eq!(set.modes_of(1).map(|m| m.len()), Ok(0));
}

#[test]
fn client_error_texts() {
    assert_eq!(ConnectionError::Failed("denied".to_string()).message(), "Failed to open pipe: denied");
    assert_eq!(SendError::PipeBroken("gone".to_string()).message(), "Failed to send message: gone");
    assert_eq!(ReceiveError("eof".to_string()).message(), "Failed to receive event: eof");
    assert_eq!(
        RequestError::Send("gone".to_string()).message(),
        "Failed to send message (pipe broken): gone"
    );
    assert_eq!(
        RequestError::Receive("Pipe closed".to_string()).message(),
        "Failed to receive message (pipe broken): Pipe closed"
    );
    assert_eq!(RequestError::Timeout(12).message(), "Did not get a response in time (12s)");
}

#[test]
fn binding_error_conversions() {
    assert_eq!(
        DuplicateError::from(CoreDuplicateError::Mode(1920, 1080, 4)),
        DuplicateError::Mode { monitor_id: 4, width: 1920, height: 1080 }
    );
    assert_eq!(
        DuplicateError::from(CoreDuplicateError::RefreshRate(60, 1, 2, 3)),
        DuplicateError::RefreshRate { monitor_id: 3, width: 1, height: 2, refresh_rate: 60 }
    );
    assert_eq!(DuplicateError::from(CoreDuplicateError::Monitor(5)), DuplicateError::Monitor { id: 5 });
    assert_eq!(MonitorNotFoundError::from(MonNotFound(6)), MonitorNotFoundError { id: 6 });
    assert_eq!(
        AddModeError::from(CoreAddModeError::DupMode(4, 1920, 1080)),
        AddModeError::ModeExists { monitor_id: 4, width: 1920, height: 1080 }
    );
    assert_eq!(
        AddModeError::from(CoreAddModeError::DupRefreshRate(60, 1, 2, 3)),
        AddModeError::RefreshRateExists { monitor_id: 3, width: 1, height: 2, refresh_rate: 60 }
    );
    assert_eq!(AddModeError::from(CoreAddModeError::MonNotFound(2)), AddModeError::MonitorNotFound { id: 2 });
}

#[test]
fn request_and_event_steps() {
    let reply = Received::Command(ClientCommand::Reply(ReplyCommand::State(vec![monitor(1, vec![])])));
    assert!(matches!(request_step(reply), RequestStep::Reply(ref ms) if ms.len() == 1));
    let event = Received::Command(ClientCommand::Event(EventCommand::Changed(vec![])));
    assert!(matches!(request_step(event), RequestStep::Wait));
    assert!(matches!(request_step(Received::Lagged), RequestStep::Wait));
    assert!(matches!(
        request_step(Received::Closed(None)),
        RequestStep::Failed(RequestError::Receive(ref t)) if t == "Pipe closed"
    ));
    assert!(matches!(
        request_step(Received::Failed("x".to_string())),
        RequestStep::Failed(RequestError::Receive(ref t)) if t == "x"
    ));
    assert!(matches!(
        request_step(Received::Closed(Some("z".to_string()))),
        RequestStep::Failed(RequestError::Receive(ref t)) if t == "z"
    ));
    let event = Received::Command(ClientCommand::Event(EventCommand::Changed(vec![])));
    assert!(matches!(event_step(event), EventStep::Event(_)));
    assert!(matches!(event_step(Received::Lagged), EventStep::Skip));
    assert!(matches!(event_step(Received::Closed(Some("y".to_string()))), EventStep::Skip));
    assert_eq!(write_progress(0, 3, 10), (3, false));
    assert_eq!(write_progress(3, 7, 10), (10, true));
}

#[test]
fn state_request_times_out_after_five_seconds() {
    assert_eq!(REQUEST_TIMEOUT_MS, 5000);
    assert_eq!(request_wait_left(0), Some(5000));
    assert_eq!(request_wait_left(4999), Some(1));
    assert_eq!(request_wait_left(5000), None);
    assert_eq!(request_wait_left(u64::MAX), None);
    assert_eq!(REQUEST_TIMEOUT_SECS, 5);
    match request_step(Received::TimedOut) {
        RequestStep::Failed(e) => {
            assert!(matches!(e, RequestError::Timeout(5)));
            assert_eq!(e.message(), "Did not get a response in time (5s)");
        }
        _ => panic!("expected a timeout"),
    }
    assert!(matches!(event_step(Received::TimedOut), EventStep::Skip));
}

#[test]
fn binding_settings() {
    let mut m = Monitor { id: 1, name: Some("a".to_string()), enabled: true, modes: vec![mode(1, 1, &[1])] };
    apply_settings(&mut m, None, None, None);
    assert!(m.name.is_none() && m.enabled && m.modes.len() == 1);
    apply_settings(&mut m, Some(false), Some("b".to_string()), Some(vec![]));
    assert_eq!(m.name.as_deref(), Some("b"));
    assert!(!m.enabled && m.modes.is_empty());
}

#[test]
fn lazy_value_is_computed_once() {
    let lazy: LazyLock<u32, fn() -> u32> = LazyLock::new(|| 5);
    assert_eq!(*lazy.force(), 5);
    assert_eq!(*lazy.force(), 5);
}

#[test]
fn logger_name_registration_failure() {
    let mut logger = DriverLogger::new(Level::Warn);
    assert_eq!(logger.name("src", Err("denied".to_string())).err(), Some("denied".to_string()));
    assert!(logger.event_source().is_none());
    assert_eq!(logger.targets(Level::Error), LogTargets { debugger: false, event_log: false });
}

#[test]
fn change_broadcast_skips_sender() {
    assert!(forwards_change(2, 1));
    assert!(!forwards_change(1, 1));
    assert_eq!(change_recipients(&[1, 2, 3], 2), vec![1, 3]);
    assert!(matches!(change_step(1, Broadcast::Changed(1, vec![])), ChangeStep::Skip));
    assert!(matches!(change_step(2, Broadcast::Changed(1, vec![monitor(4, vec![])])), ChangeStep::Send(ref d) if d.len() == 1));
    assert!(matches!(change_step(2, Broadcast::Lagged), ChangeStep::Skip));
    assert!(matches!(change_step(2, Broadcast::Closed), ChangeStep::Stop));
}

fn item(kind: ItemKind, name: &str) -> PyItem {
    PyItem { kind, type_text: name.to_string() }
}

#[test]
fn typed_list_append_plan() {
    let p = append_plan(ListType::Mode, &PyValue::Single(item(ItemKind::Mode, "Mode")));
    assert_eq!((p.appended, p.error), (1, None));
    let p = append_plan(ListType::Monitor, &PyValue::Single(item(ItemKind::U32(3), "int")));
    assert_eq!((p.appended, p.error), (0, Some("expected Monitor, got int".to_string())));
    let list = PyValue::List(vec![
        item(ItemKind::U32(60), "int"),
        item(ItemKind::U32(75), "int"),
        item(ItemKind::Other, "str"),
        item(ItemKind::U32(90), "int"),
    ]);
    let p = append_plan(ListType::RefreshRate, &list);
    assert_eq!((p.appended, p.error), (2, Some("expected u32, got str".to_string())));
    let p = append_plan(ListType::RefreshRate, &PyValue::List(vec![item(ItemKind::U32(1), "int")]));
    assert_eq!((p.appended, p.error), (1, None));
    assert_eq!(ListType::RefreshRate.name(), "u32");
}

#[test]
fn decimal_parsing_edges() {
    assert_eq!(parse_u32("+5"), Some(5));
    assert_eq!(parse_u32("4294967295"), Some(u32::MAX));
    assert_eq!(parse_u32("4294967296"), None);
    assert_eq!(parse_u32(""), None);
    assert_eq!(parse_u32("+"), None);
    assert_eq!(parse_u32("-1"), None);
    assert!(str_eq("abc", "abc"));
    assert!(!str_eq("abc", "abd"));
}

#[test]
fn monitor_set_fields_and_get() {
    let mut set = MonitorSet::new(vec![monitor(1, vec![mode(10, 10, &[1])])]);
    assert_eq!(set.set_fields(1, Some(Some("desk".to_string())), Some(false), None), Ok(()));
    let m = set.get(1).expect("present");
    assert_eq!(m.name.as_deref(), Some("desk"));
    assert!(!m.enabled);
    assert_eq!(m.modes.len(), 1);
    assert_eq!(set.set_fields(1, Some(None), None, Some(vec![])), Ok(()));
    let m = set.get(1).expect("present");
    assert!(m.name.is_none() && m.modes.is_empty() && !m.enabled);
    assert_eq!(set.set_fields(2, None, None, None), Err(MonNotFound(2)));
    assert!(set.get(2).is_err());
}

#[test]
fn session_service_restores_each_session_once() {
    let mut t = SessionTracker::new();
    assert_eq!(t.on_event(ServiceEvent::SessionLogon(3)), ServiceAction::Restore(3));
    assert_eq!(t.on_event(ServiceEvent::SessionUnlock(3)), ServiceAction::Nothing);
    assert_eq!(t.on_event(ServiceEvent::RemoteConnect(4)), ServiceAction::Restore(4));
    assert_eq!(t.on_event(ServiceEvent::SessionLogoff(4)), ServiceAction::RemoveAll);
    assert_eq!(t.on_event(ServiceEvent::SessionLogon(4)), ServiceAction::Nothing);
    assert_eq!(t.on_event(ServiceEvent::SessionLogon(0)), ServiceAction::Restore(0));
    assert_eq!(t.on_event(ServiceEvent::Interrogate), ServiceAction::Nothing);
    assert_eq!(t.on_event(ServiceEvent::Other), ServiceAction::NotImplemented);
    assert_eq!(t.on_event(ServiceEvent::Stop), ServiceAction::Shutdown);
}
