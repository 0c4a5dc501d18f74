use driver_ipc::cli_commands::{
    listing, next_id, push_mode, remove_mode_at, requested_mode_list, set_enabled_outcome, AddModesError,
    NewMonitor, RemoveModeError,
};
use driver_ipc::cli_mode::{merge, remove, Mode, ModeParseError, DEFAULT_REFRESH_RATE};
use driver_ipc::model::{Mode as IpcMode, Monitor};

fn parse(s: &str) -> Mode {
    Mode::parse(s).expect("valid mode")
}

fn texts(modes: &[Mode]) -> Vec<String> {
    modes.iter().map(|m| m.to_string()).collect()
}

fn monitor(id: u32, modes: usize) -> Monitor {
    let modes = (0..modes)
        .map(|i| IpcMode { width: 100 + i as u32, height: 100, refresh_rates: vec![60] })
        .collect();
    Monitor { id, name: None, enabled: true, modes }
}

#[test]
fn mode_parse_plain_and_with_rates() {
    let m = parse("1920x1080");
    assert_eq!((m.width(), m.height()), (1920, 1080));
    assert!(m.refresh_rates().is_empty());
    assert_eq!(m.to_string(), "1920x1080");
    assert_eq!(m.into_ipc().refresh_rates, vec![DEFAULT_REFRESH_RATE]);
    let m = parse("1920x1080@144/60/144");
    assert_eq!(m.refresh_rates(), &[60, 144]);
    assert_eq!(m.to_string(), "1920x1080@60/144");
}

#[test]
fn mode_parse_errors() {
    assert!(matches!(Mode::parse("1920"), Err(ModeParseError::InvalidResolution)));
    assert!(matches!(Mode::parse("ax1080"), Err(ModeParseError::InvalidWidth)));
    assert!(matches!(Mode::parse("1920xb"), Err(ModeParseError::InvalidHeight)));
    match Mode::parse("1920x1080@60/fast") {
        Err(ModeParseError::InvalidRefreshRate(piece)) => assert_eq!(piece, "fast"),
        _ => panic!("expected InvalidRefreshRate"),
    }
}

#[test]
fn mode_render_parse_round_trip() {
    let m = Mode::new(800, 600, &[75, 30]);
    let again = parse(&m.to_string());
    assert_eq!(again.to_string(), "800x600@30/75");
    assert_eq!((again.width(), again.height()), (800, 600));
}

#[test]
fn mode_ipc_conversion() {
    let ipc = IpcMode { width: 640, height: 480, refresh_rates: vec![60, 30, 60] };
    let m = Mode::from_ipc(&ipc);
    assert_eq!(m.refresh_rates(), &[30, 60]);
    let back = m.into_ipc();
    assert_eq!((back.width, back.height), (640, 480));
    assert_eq!(back.refresh_rates, vec![30, 60]);
}

#[test]
fn merge_joins_resolutions() {
    let merged = merge(vec![parse("1920x1080@60"), parse("1280x720@60"), parse("1920x1080@144")]);
    assert_eq!(texts(&merged), vec!["1920x1080@60/144", "1280x720@60"]);
}

#[test]
fn remove_whole_resolution_or_rates() {
    let modes = vec![parse("1920x1080@60/144"), parse("1280x720@60")];
    let left = remove(modes, &Mode::new(1280, 720, &[])).expect("found");
    assert_eq!(texts(&left), vec!["1920x1080@60/144"]);
    let left = remove(left, &parse("1920x1080@144")).expect("found");
    assert_eq!(texts(&left), vec!["1920x1080@60"]);
    let err = remove(left, &parse("1920x1080@30")).err().expect("missing rate");
    assert_eq!(err.0, "mode 1920x1080@30 not found");
    let err = remove(vec![], &Mode::new(1, 2, &[])).err().expect("missing resolution");
    assert_eq!(err.0, "mode 1x2 not found");
}

#[test]
fn next_id_is_one_past_largest() {
    assert_eq!(next_id(&[]), 0);
    assert_eq!(next_id(&[monitor(3, 1), monitor(1, 1)]), 4);
}

#[test]
fn requested_modes_need_pairs() {
    let rates = vec![60, 30];
    let modes = requested_mode_list(1920, 1080, &[1280, 720, 800, 600], &rates).expect("pairs");
    let dims: Vec<(u32, u32)> = modes.iter().map(|m| (m.width, m.height)).collect();
    assert_eq!(dims, vec![(1920, 1080), (1280, 720), (800, 600)]);
    assert!(modes.iter().all(|m| m.refresh_rates == rates));
    assert!(matches!(requested_mode_list(1920, 1080, &[1280], &rates), Err(AddModesError::MissingHeight)));
}

#[test]
fn push_and_remove_modes() {
    let mut m = monitor(2, 1);
    let idx = push_mode(&mut m, IpcMode { width: 5, height: 6, refresh_rates: vec![1] });
    assert_eq!(idx, 1);
    assert_eq!(m.modes.len(), 2);
    assert_eq!(remove_mode_at(&mut m, 5), Err(RemoveModeError::NoSuchMode { id: 2, index: 5 }));
    assert_eq!(remove_mode_at(&mut m, 0), Ok(()));
    assert_eq!(m.modes[0].width, 5);
    assert_eq!(remove_mode_at(&mut m, 0), Err(RemoveModeError::LastMode { id: 2 }));
    let mut empty = monitor(4, 0);
    assert_eq!(remove_mode_at(&mut empty, 0), Err(RemoveModeError::NoSuchMode { id: 4, index: 0 }));
}

#[test]
fn enable_disable_outcome() {
    let out = set_enabled_outcome(monitor(1, 1), false);
    assert!(out.toggled);
    assert!(!out.monitor.enabled);
    let out = set_enabled_outcome(out.monitor, false);
    assert!(!out.toggled);
}

#[test]
fn new_monitor_id_and_shape() {
    let req = NewMonitor { width: 1024, height: 768, refresh_rates: vec![75], id: None };
    assert_eq!(req.resolve_id(&[monitor(0, 1), monitor(6, 1)]), 7);
    let fixed = NewMonitor { width: 1, height: 1, refresh_rates: vec![], id: Some(3) };
    assert_eq!(fixed.resolve_id(&[monitor(3, 1)]), 3);
    let m = req.into_monitor(7);
    assert_eq!(m.id, 7);
    assert!(m.enabled && m.name.is_none());
    assert_eq!(m.modes.len(), 1);
    assert_eq!((m.modes[0].width, m.modes[0].height), (1024, 768));
    assert_eq!(m.modes[0].refresh_rates, vec![75]);
}

#[test]
fn listing_lines() {
    assert_eq!(listing(&[]), vec!["No virtual monitors found."]);
    let a = Monitor {
        id: 0,
        name: Some("desk".to_string()),
        enabled: true,
        modes: vec![
            IpcMode { width: 1920, height: 1080, refresh_rates: vec![60, 144] },
            IpcMode { width: 800, height: 600, refresh_rates: vec![] },
        ],
    };
    let b = Monitor { id: 12, name: None, enabled: false, modes: vec![] };
    assert_eq!(
        listing(&[a, b]),
        vec![
            "Virtual monitors",
            "Monitor 0 [desk]:",
            "- Mode 0: 1920x1080 @ 60/144Hz",
            "- Mode 1: 800x600 @ ?Hz",
            "",
            "Monitor 12 (disabled):",
            "- No modes",
        ]
    );
}

#[test]
fn remove_worked_example() {
    let modes = vec![parse("1920x1080@60"), parse("1920x1080@144"), parse("1280x720@60")];
    let left = remove(modes, &parse("1920x1080@60")).expect("found");
    let mut t = texts(&left);
    t.sort();
    assert_eq!(t, vec!["1280x720@60", "1920x1080@144"]);
    let modes = vec![parse("1920x1080@60"), parse("1920x1080@144"), parse("1280x720@60")];
    assert_eq!(remove(modes, &parse("1920x1080@75")).err().unwrap().0, "mode 1920x1080@75 not found");
    let modes = vec![parse("1920x1080@60")];
    assert_eq!(remove(modes, &Mode::new(800, 600, &[])).err().unwrap().0, "mode 800x600 not found");
}

#[test]
fn mode_remove_some_rates_keeps_the_rest_in_order() {
    let modes = vec![parse("1280x720@60/30"), parse("1280x720@144/60")];
    let left = remove(modes, &parse("1280x720@60")).expect("found");
    assert_eq!(texts(&left), vec!["1280x720@30/144".to_string()]);
    let merged = merge(vec![parse("640x480@75"), parse("640x480@30/75")]);
    assert_eq!(merged[0].refresh_rates(), &[30, 75]);
}
