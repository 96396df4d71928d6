use sentinel_cloud::state::{LiveStatus, RemoteConfig, StateStore};

fn status(token: &str, mode: &str, angle: f32, max_temp: f32) -> LiveStatus {
    LiveStatus {
        last_update: 0,
        turbine_token: token.to_string(),
        mode: mode.to_string(),
        current_angle: angle.to_bits(),
        current_max_temp: max_temp.to_bits(),
        is_online: false,
    }
}

#[test]
fn initial_values() {
    let s = StateStore::new();
    let c = s.get_config();
    assert_eq!(c.max_temp_trigger, 50.0f32.to_bits());
    assert_eq!(c.scan_wait_time_sec, 5);
    assert!(c.system_enabled);
    assert_eq!(c.pan_step_degrees, 0.5f32.to_bits());
    assert_eq!(c.api_key.as_deref(), Some(""));
    let l = s.get_status(0);
    assert_eq!(l.last_update, 0);
    assert!(!l.is_online);
}

#[test]
fn heartbeat_scenario() {
    // Heartbeat with {T1, Scanning, 45.0, 30.0}: the response equals the
    // stored configuration, and a status read within 5 seconds is online.
    let mut s = StateStore::new();
    let cfg = s.heartbeat(status("T1", "Scanning", 45.0, 30.0), 1000);
    assert_eq!(cfg.max_temp_trigger, 50.0f32.to_bits());
    assert_eq!(cfg.scan_wait_time_sec, 5);
    let l = s.get_status(1004);
    assert!(l.is_online);
    assert_eq!(l.turbine_token, "T1");
    assert_eq!(l.mode, "Scanning");
    assert_eq!(l.current_angle, 45.0f32.to_bits());
    assert_eq!(l.current_max_temp, 30.0f32.to_bits());
    assert_eq!(l.last_update, 1000);
}

#[test]
fn staleness_transform_without_mutation() {
    let mut s = StateStore::new();
    s.heartbeat(status("T1", "Scanning", 1.0, 2.0), 1000);
    // Exactly at the window edge the robot still counts as online.
    assert!(s.get_status(1005).is_online);
    // Past the window: offline and "Lost Connection", whatever is stored.
    let stale = s.get_status(1006);
    assert!(!stale.is_online);
    assert_eq!(stale.mode, "Lost Connection");
    assert_eq!(stale.last_update, 1000);
    assert_eq!(stale.turbine_token, "T1");
    // The read did not change the stored value: an in-window read still
    // reports the true mode and time.
    let fresh = s.get_status(1002);
    assert!(fresh.is_online);
    assert_eq!(fresh.mode, "Scanning");
    assert_eq!(fresh.last_update, 1000);
}

#[test]
fn heartbeat_forces_online_flag() {
    let mut s = StateStore::new();
    let mut incoming = status("T2", "Idle", 0.0, 0.0);
    incoming.is_online = false;
    incoming.last_update = 77;
    s.heartbeat(incoming, 2000);
    let l = s.get_status(2001);
    assert!(l.is_online);
    assert_eq!(l.last_update, 2000);
}

#[test]
fn config_whole_value_replace() {
    let mut s = StateStore::new();
    let new_conf = RemoteConfig {
        max_temp_trigger: (-10.0f32).to_bits(),
        scan_wait_time_sec: 60,
        system_enabled: false,
        pan_step_degrees: 2.5f32.to_bits(),
        api_key: None,
    };
    s.set_config(new_conf);
    let c = s.get_config();
    assert_eq!(c.max_temp_trigger, (-10.0f32).to_bits());
    assert_eq!(c.scan_wait_time_sec, 60);
    assert!(!c.system_enabled);
    assert_eq!(c.pan_step_degrees, 2.5f32.to_bits());
    assert!(c.api_key.is_none());
}
