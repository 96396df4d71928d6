//! The in-memory shared state: current remote configuration and live robot
//! status, with whole-value replace semantics and read-time staleness
//! detection. All state is volatile and created with defined initial values
//! at startup.

use vstd::prelude::*;
use vstd::string::*;

verus! {

/// Seconds without a heartbeat after which the robot counts as offline.
pub const STALE_AFTER_SEC: u64 = 5;

/// Bit pattern of `50.0f32`, the initial trigger threshold.
pub const INITIAL_TRIGGER_BITS: u32 = 0x4248_0000;

/// Bit pattern of `0.5f32`, the initial pan step.
pub const INITIAL_PAN_STEP_BITS: u32 = 0x3F00_0000;

/// The remote configuration, replaced as a whole value on every operator
/// write; no field-wise merge and no validation. `max_temp_trigger` and
/// `pan_step_degrees` carry IEEE-754 single-precision bit patterns (see
/// `fbits`). `api_key` distinguishes "unset" (`None`) from "empty string".
pub struct RemoteConfig {
    pub max_temp_trigger: u32,
    pub scan_wait_time_sec: u64,
    pub system_enabled: bool,
    pub pan_step_degrees: u32,
    pub api_key: Option<String>,
}

impl Clone for RemoteConfig {
    fn clone(&self) -> (r: Self)
        ensures
            r == *self,
    {
        RemoteConfig {
            max_temp_trigger: self.max_temp_trigger,
            scan_wait_time_sec: self.scan_wait_time_sec,
            system_enabled: self.system_enabled,
            pan_step_degrees: self.pan_step_degrees,
            api_key: match &self.api_key {
                Some(k) => Some(k.clone()),
                None => None,
            },
        }
    }
}

impl RemoteConfig {
    /// The configuration a fresh store starts with.
    pub fn initial() -> (r: Self)
        ensures
            r.max_temp_trigger == INITIAL_TRIGGER_BITS,
            r.scan_wait_time_sec == 5,
            r.system_enabled == true,
            r.pan_step_degrees == INITIAL_PAN_STEP_BITS,
            r.api_key matches Some(k) && k@ == Seq::<char>::empty(),
    {
        RemoteConfig {
            max_temp_trigger: INITIAL_TRIGGER_BITS,
            scan_wait_time_sec: 5,
            system_enabled: true,
            pan_step_degrees: INITIAL_PAN_STEP_BITS,
            api_key: Some(String::new()),
        }
    }
}

/// The live robot status, replaced as a whole on every heartbeat. The stored
/// `is_online` is always stamped `true` by a heartbeat and reinterpreted at
/// read time against the staleness window. `current_angle` and
/// `current_max_temp` carry IEEE-754 single-precision bit patterns.
pub struct LiveStatus {
    pub last_update: u64,
    pub turbine_token: String,
    pub mode: String,
    pub current_angle: u32,
    pub current_max_temp: u32,
    pub is_online: bool,
}

impl Clone for LiveStatus {
    fn clone(&self) -> (r: Self)
        ensures
            r == *self,
    {
        LiveStatus {
            last_update: self.last_update,
            turbine_token: self.turbine_token.clone(),
            mode: self.mode.clone(),
            current_angle: self.current_angle,
            current_max_temp: self.current_max_temp,
            is_online: self.is_online,
        }
    }
}

impl LiveStatus {
    /// The status a fresh store starts with: nothing heard yet.
    pub fn initial() -> (r: Self)
        ensures
            r.last_update == 0,
            r.turbine_token@ == "Waiting..."@,
            r.mode@ == "Offline"@,
            r.current_angle == 0,
            r.current_max_temp == 0,
            r.is_online == false,
    {
        LiveStatus {
            last_update: 0,
            turbine_token: String::from_str("Waiting..."),
            mode: String::from_str("Offline"),
            current_angle: 0,
            current_max_temp: 0,
            is_online: false,
        }
    }
}

/// A reading is stale when it is requested more than `STALE_AFTER_SEC`
/// seconds after the last heartbeat.
pub open spec fn is_stale(last_update: u64, now: u64) -> bool {
    now > last_update + STALE_AFTER_SEC
}

/// The state store proper: configuration and live status under one owner.
/// Readers receive snapshot copies; writers replace whole values.
pub struct StateStore {
    pub config: RemoteConfig,
    pub live: LiveStatus,
}

impl StateStore {
    /// A fresh store with the defined initial values.
    pub fn new() -> (r: Self)
        ensures
            r.config.max_temp_trigger == INITIAL_TRIGGER_BITS,
            r.config.scan_wait_time_sec == 5,
            r.config.system_enabled == true,
            r.config.pan_step_degrees == INITIAL_PAN_STEP_BITS,
            r.config.api_key matches Some(k) && k@ == Seq::<char>::empty(),
            r.live.last_update == 0,
            r.live.is_online == false,
            r.live.mode@ == "Offline"@,
    {
        StateStore { config: RemoteConfig::initial(), live: LiveStatus::initial() }
    }

    /// Snapshot copy of the configuration.
    pub fn get_config(&self) -> (r: RemoteConfig)
        ensures
            r == self.config,
    {
        self.config.clone()
    }

    /// Whole-value replace of the configuration; accepts any values.
    pub fn set_config(&mut self, new_config: RemoteConfig)
        ensures
            final(self).config == new_config,
            final(self).live == old(self).live,
    {
        self.config = new_config;
    }

    /// The status as seen at time `now`: a copy of the stored value, except
    /// that past the staleness window it reports `is_online == false` and
    /// mode "Lost Connection". The stored value is never changed by a read.
    pub fn get_status(&self, now: u64) -> (r: LiveStatus)
        ensures
            !is_stale(self.live.last_update, now) ==> r == self.live,
            is_stale(self.live.last_update, now) ==> {
                &&& r.last_update == self.live.last_update
                &&& r.turbine_token == self.live.turbine_token
                &&& r.mode@ == "Lost Connection"@
                &&& r.current_angle == self.live.current_angle
                &&& r.current_max_temp == self.live.current_max_temp
                &&& r.is_online == false
            },
    {
        let mut r = self.live.clone();
        let stale = if self.live.last_update <= u64::MAX - STALE_AFTER_SEC {
            now > self.live.last_update + STALE_AFTER_SEC
        } else {
            false
        };
        if stale {
            r.is_online = false;
            r.mode = String::from_str("Lost Connection");
        }
        r
    }

    /// Whole-value replace of the live status, stamping the heartbeat time
    /// and forcing `is_online` to `true`; no validation of the incoming
    /// value.
    pub fn set_status(&mut self, incoming: LiveStatus, now: u64)
        ensures
            final(self).live.last_update == now,
            final(self).live.turbine_token == incoming.turbine_token,
            final(self).live.mode == incoming.mode,
            final(self).live.current_angle == incoming.current_angle,
            final(self).live.current_max_temp == incoming.current_max_temp,
            final(self).live.is_online == true,
            final(self).config == old(self).config,
    {
        self.live = incoming;
        self.live.last_update = now;
        self.live.is_online = true;
    }

    /// The heartbeat handshake at time `now`: applies the incoming status
    /// as `set_status` does and returns the authoritative configuration in
    /// the same round trip. Always succeeds.
    pub fn heartbeat(&mut self, incoming: LiveStatus, now: u64) -> (cfg: RemoteConfig)
        ensures
            final(self).live.last_update == now,
            final(self).live.turbine_token == incoming.turbine_token,
            final(self).live.mode == incoming.mode,
            final(self).live.current_angle == incoming.current_angle,
            final(self).live.current_max_temp == incoming.current_max_temp,
            final(self).live.is_online == true,
            final(self).config == old(self).config,
            cfg == old(self).config,
    {
        self.set_status(incoming, now);
        self.get_config()
    }
}

} // verus!
