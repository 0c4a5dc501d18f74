use driver_ipc::driver_client::{AddModeError, AddModeQueryError, DriverClient, MonNotFound, QueryNotFound};
use driver_ipc::model::{Mode, Monitor};
use driver_ipc::validation::DuplicateError;

fn mode(width: u32, height: u32, rates: &[u32]) -> Mode {
    Mode { width, height, refresh_rates: rates.to_vec() }
}

fn monitor(id: u32, name: Option<&str>, enabled: bool, modes: Vec<Mode>) -> Monitor {
    Monitor { id, name: name.map(|n| n.to_string()), enabled, modes }
}

fn ids(client: &DriverClient) -> Vec<u32> {
    client.monitors().iter().map(|m| m.id).collect()
}

fn named_client() -> DriverClient {
    DriverClient::new(vec![
        monitor(0, Some("foo"), true, vec![mode(1920, 1080, &[60])]),
        monitor(1, Some("bar"), true, vec![mode(1280, 720, &[60])]),
        monitor(2, Some("1"), false, vec![mode(800, 600, &[30])]),
    ])
}

#[test]
fn find_id_name_has_precedence() {
    let client = named_client();
    assert_eq!(client.find_id("foo"), Some(0));
    assert_eq!(client.find_id("bar"), Some(1));
    assert_eq!(client.find_id("1"), Some(2));
    assert_eq!(client.find_id("0"), Some(0));
    assert_eq!(client.find_id("baz"), None);
    assert_eq!(client.find_id("7"), None);
}

#[test]
fn find_monitor_by_id_and_query() {
    let client = named_client();
    assert_eq!(client.find_monitor(1).map(|m| m.id), Some(1));
    assert!(client.find_monitor(9).is_none());
    assert_eq!(client.find_monitor_query("bar").map(|m| m.id), Some(1));
    assert_eq!(client.find_monitor_query("2").map(|m| m.id), Some(2));
    assert!(client.find_monitor_query("nothing").is_none());
}

#[test]
fn add_refuses_duplicate_id() {
    let mut client = named_client();
    let r = client.add(monitor(1, None, true, vec![mode(640, 480, &[60])]));
    assert_eq!(r, Err(DuplicateError::Monitor(1)));
    assert_eq!(ids(&client), vec![0, 1, 2]);
    assert!(client.add(monitor(5, None, true, vec![mode(640, 480, &[60])])).is_ok());
    assert_eq!(ids(&client), vec![0, 1, 2, 5]);
}

#[test]
fn set_monitors_reports_duplicates() {
    let mut client = DriverClient::new(vec![]);
    let dup_mode = vec![monitor(3, None, true, vec![mode(100, 200, &[60]), mode(100, 200, &[30])])];
    assert_eq!(client.set_monitors(&dup_mode), Err(DuplicateError::Mode(100, 200, 3)));
    let dup_rate = vec![monitor(4, None, true, vec![mode(100, 200, &[60, 30, 60])])];
    assert_eq!(client.set_monitors(&dup_rate), Err(DuplicateError::RefreshRate(60, 100, 200, 4)));
    let dup_id = vec![monitor(4, None, true, vec![]), monitor(4, None, false, vec![])];
    assert_eq!(client.set_monitors(&dup_id), Err(DuplicateError::Monitor(4)));
    assert!(client.monitors().is_empty());
    let good = vec![monitor(4, None, true, vec![mode(100, 200, &[60, 30])])];
    assert!(client.set_monitors(&good).is_ok());
    assert_eq!(ids(&client), vec![4]);
}

#[test]
fn remove_and_remove_all() {
    let mut client = named_client();
    client.remove(&[1, 7]);
    assert_eq!(ids(&client), vec![0, 2]);
    client.remove_all();
    assert!(client.monitors().is_empty());
}

#[test]
fn remove_query_fails_on_unknown_query() {
    let mut client = named_client();
    let r = client.remove_query(&["foo", "nope"]);
    match r {
        Err(QueryNotFound(q)) => assert_eq!(q, "nope"),
        Ok(()) => panic!("expected an error"),
    }
    assert_eq!(ids(&client), vec![0, 1, 2]);
    assert!(client.remove_query(&["foo", "1"]).is_ok());
    assert_eq!(ids(&client), vec![1]);
}

#[test]
fn set_enabled_by_id_and_query() {
    let mut client = named_client();
    client.set_enabled(&[0, 1], false);
    assert!(client.monitors().iter().all(|m| !m.enabled));
    assert!(client.set_enabled_query(&["bar"], true).is_ok());
    assert!(client.find_monitor(1).unwrap().enabled);
    assert!(!client.find_monitor(0).unwrap().enabled);
    assert!(client.set_enabled_query(&["missing"], true).is_err());
}

#[test]
fn add_mode_errors() {
    let mut client = named_client();
    assert_eq!(client.add_mode(9, mode(1, 1, &[1])), Err(AddModeError::MonNotFound(9)));
    assert_eq!(client.add_mode(0, mode(1920, 1080, &[30])), Err(AddModeError::DupMode(0, 1920, 1080)));
    assert_eq!(
        client.add_mode(0, mode(2560, 1440, &[60, 75, 60])),
        Err(AddModeError::DupRefreshRate(60, 2560, 1440, 0))
    );
    assert!(client.add_mode(0, mode(2560, 1440, &[60, 75])).is_ok());
    let modes = &client.find_monitor(0).unwrap().modes;
    assert_eq!(modes.len(), 2);
    assert_eq!((modes[1].width, modes[1].height), (2560, 1440));
    assert_eq!(modes[1].refresh_rates, vec![60, 75]);
}

#[test]
fn add_mode_query_errors() {
    let mut client = named_client();
    match client.add_mode_query("nope", mode(1, 1, &[1])) {
        Err(AddModeQueryError::QueryNotFound(q)) => assert_eq!(q, "nope"),
        _ => panic!("expected QueryNotFound"),
    }
    match client.add_mode_query("bar", mode(1280, 720, &[30])) {
        Err(AddModeQueryError::DupMode(id, w, h)) => assert_eq!((id, w, h), (1, 1280, 720)),
        _ => panic!("expected DupMode"),
    }
    match client.add_mode_query("bar", mode(640, 480, &[50, 50])) {
        Err(AddModeQueryError::DupRefreshRate(r, w, h, id)) => assert_eq!((r, w, h, id), (50, 640, 480, 1)),
        _ => panic!("expected DupRefreshRate"),
    }
    assert!(client.add_mode_query("bar", mode(640, 480, &[50])).is_ok());
    assert_eq!(client.find_monitor(1).unwrap().modes.len(), 2);
}

#[test]
fn remove_mode_by_resolution() {
    let mut client = named_client();
    assert!(client.add_mode(0, mode(2560, 1440, &[60])).is_ok());
    assert_eq!(client.remove_mode(9, (1, 1)), Err(MonNotFound(9)));
    assert!(client.remove_mode(0, (1920, 1080)).is_ok());
    let modes = &client.find_monitor(0).unwrap().modes;
    assert_eq!(modes.len(), 1);
    assert_eq!(modes[0].width, 2560);
    assert!(client.remove_mode_query("foo", (2560, 1440)).is_ok());
    assert!(client.find_monitor(0).unwrap().modes.is_empty());
    assert!(client.remove_mode_query("nope", (1, 1)).is_err());
}

#[test]
fn add_then_remove_restores_ids() {
    let mut client = named_client();
    assert!(client.add(monitor(8, None, true, vec![])).is_ok());
    client.remove(&[8]);
    assert_eq!(ids(&client), vec![0, 1, 2]);
}

#[test]
fn add_mode_then_remove_mode_restores_modes() {
    let mut client = named_client();
    assert!(client.add_mode(1, mode(3840, 2160, &[30])).is_ok());
    assert!(client.remove_mode(1, (3840, 2160)).is_ok());
    let modes = &client.find_monitor(1).unwrap().modes;
    assert_eq!(modes.len(), 1);
    assert_eq!((modes[0].width, modes[0].height), (1280, 720));
}

#[test]
fn new_id_picks_smallest_free() {
    let client = DriverClient::new(vec![
        monitor(0, None, true, vec![]),
        monitor(1, None, true, vec![]),
        monitor(3, None, true, vec![]),
    ]);
    assert_eq!(client.new_id(None), Some(2));
    assert_eq!(client.new_id(Some(1)), None);
    assert_eq!(client.new_id(Some(5)), Some(5));
    let empty = DriverClient::new(vec![]);
    assert_eq!(empty.new_id(None), Some(0));
}

#[test]
fn new_id_is_accepted_by_add() {
    let mut client = named_client();
    let id = client.new_id(None).unwrap();
    assert!(client.add(monitor(id, None, true, vec![])).is_ok());
}

#[test]
fn replace_monitor_and_refresh_state() {
    let mut client = named_client();
    assert_eq!(client.replace_monitor(monitor(9, None, true, vec![])), Err(MonNotFound(9)));
    assert!(client.replace_monitor(monitor(1, Some("baz"), false, vec![])).is_ok());
    assert_eq!(client.find_id("baz"), Some(1));
    let state = client.refresh_state(vec![monitor(4, None, true, vec![])]);
    assert_eq!(state.len(), 1);
    assert_eq!(state[0].id, 4);
}

#[test]
fn find_monitor_mut_then_check_duplicates() {
    let mut client = named_client();
    {
        let m = client.find_monitor_mut_unchecked(0).unwrap();
        m.modes.push(mode(1920, 1080, &[30]));
    }
    assert_eq!(client.check_duplicates(), Err(DuplicateError::Mode(1920, 1080, 0)));
    {
        let m = client.find_monitor_mut_query_unchecked("foo").unwrap();
        m.modes.pop();
    }
    assert!(client.check_duplicates().is_ok());
    assert!(client.find_monitor_mut_unchecked(42).is_none());
}

#[test]
fn duplicate_copies_state() {
    let client = named_client();
    let copy = client.duplicate();
    assert_eq!(ids(&copy), vec![0, 1, 2]);
    assert_eq!(copy.find_id("foo"), Some(0));
}

#[test]
fn error_messages() {
    assert_eq!(DuplicateError::Monitor(3).message(), "Duplicate monitor with ID 3");
    assert_eq!(DuplicateError::Mode(1920, 1080, 2).message(), "Duplicate mode 1920x1080 on monitor 2");
    assert_eq!(
        DuplicateError::RefreshRate(60, 800, 600, 7).message(),
        "Duplicate refresh rate 60 on mode 800x600 on monitor 7"
    );
    assert_eq!(QueryNotFound("abc".to_string()).message(), "Query not found: abc");
    assert_eq!(MonNotFound(12).message(), "Monitor not found: 12");
    assert_eq!(AddModeError::MonNotFound(5).message(), "Monitor not found: 5");
    assert_eq!(AddModeError::DupMode(1, 10, 20).message(), "Duplicate mode 10x20 on monitor 1");
    assert_eq!(
        AddModeError::DupRefreshRate(90, 10, 20, 1).message(),
        "Duplicate refresh rate 90 on mode 10x20 on monitor 1"
    );
    assert_eq!(AddModeQueryError::QueryNotFound("q".to_string()).message(), "Query not found: q");
    assert_eq!(AddModeQueryError::DupMode(4, 1, 2).message(), "Duplicate mode 1x2 on monitor 4");
}

#[test]
fn edits_keep_a_valid_state_valid() {
    let mut client = named_client();
    assert!(client.check_duplicates().is_ok());
    assert!(client.add(monitor(7, None, true, vec![mode(640, 480, &[60, 30])])).is_ok());
    assert!(client.check_duplicates().is_ok());
    client.set_enabled(&[7, 0], false);
    assert!(client.check_duplicates().is_ok());
    assert!(client.add_mode(7, mode(800, 600, &[60])).is_ok());
    assert!(client.check_duplicates().is_ok());
    assert!(client.remove_mode(7, (640, 480)).is_ok());
    assert!(client.check_duplicates().is_ok());
    client.remove(&[1]);
    assert!(client.check_duplicates().is_ok());
}

#[test]
fn find_monitor_mut_checks_duplicates() {
    let mut client = named_client();
    let r = client.find_monitor_mut(1, |m| {
        m.enabled = false;
        m.modes.len()
    });
    assert_eq!(r, Some(1));
    assert!(!client.find_monitor(1).unwrap().enabled);
    assert_eq!(client.find_monitor_mut_query("foo", |m| m.id), Some(0));
    assert_eq!(client.find_monitor_mut_query("none", |m| m.id), None);
    let r = client.find_monitor_mut(1, |m| m.modes.push(mode(1280, 720, &[30])));
    assert_eq!(r, None);
    assert_eq!(client.find_monitor(1).unwrap().modes.len(), 2);
    assert_eq!(client.find_monitor_mut(9, |_| 0), None);
    // the change stays, so the state is left invalid and every checked
    // change now reports None
    assert_eq!(client.find_monitor_mut_query("foo", |m| m.id), None);
}

#[test]
fn duplicate_is_independent() {
    let mut client = named_client();
    let mut copy = client.duplicate();
    client.remove(&[0]);
    assert!(copy.add(monitor(9, None, true, vec![])).is_ok());
    assert_eq!(ids(&client), vec![1, 2]);
    assert_eq!(ids(&copy), vec![0, 1, 2, 9]);
}
