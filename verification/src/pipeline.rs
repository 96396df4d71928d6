//! The capture ingest pipeline: names the capture file, analyzes the
//! uploaded bytes, and appends the derived alert record to the bounded
//! history — one record per successfully saved upload, no record when the
//! save failed. The actual file write is the caller's I/O; everything that
//! decides or computes is here.

use vstd::prelude::*;
use crate::alerts::{AlertRecord, AlertRing, ALERT_CAP};
use crate::codec::{max_temp_of, spec_max_temp_of};
use crate::naming::{dec_chars, make_capture_filename};
use crate::state::{LiveStatus, RemoteConfig, StateStore};

verus! {

/// Relies on `uuid::Uuid::new_v4` and its `Display` form: a fresh random
/// version-4 identifier rendered hyphenated, which is always 36 ASCII
/// characters. Nothing more is promised of the value, since it is random.
#[verifier::external_body]
fn fresh_alert_id() -> (r: String)
    ensures
        r@.len() == 36,
{
    uuid::Uuid::new_v4().to_string()
}

/// Relies on `chrono::Utc::now`: the current unix timestamp, cast as the
/// wire format carries it (wrapping for pre-1970 clocks). Nothing is promised of the value — time
/// is external.
#[verifier::external_body]
fn unix_now() -> u64 {
    chrono::Utc::now().timestamp() as u64
}

/// Stamps the deterministic capture filename for a token at the current
/// time, returning the name together with the timestamp it was built from.
pub fn plan_capture_filename(token: &str) -> (r: (String, u64))
    ensures
        r.0@ == "capture_"@ + token@ + "_"@ + dec_chars(r.1 as int) + ".npz"@,
{
    let now = unix_now();
    let name = make_capture_filename(token, now);
    (name, now)
}

/// Records one successfully saved upload: analyzes the same in-memory bytes
/// that were written (a malformed capture degrades to a peak temperature of
/// `0.0`, it does not fail the upload), builds the alert record with a
/// fresh identifier, and appends it as the newest entry, evicting the
/// oldest past the capacity bound. Exactly one record is appended per call.
pub fn ingest_saved_capture(
    ring: &mut AlertRing,
    turbine_token: String,
    angle: u32,
    data: &[u8],
    dataset_path: String,
)
    requires
        old(ring).wf(),
    ensures
        final(ring).wf(),
        final(ring)@.len() == if old(ring)@.len() < ALERT_CAP {
            old(ring)@.len() + 1
        } else {
            ALERT_CAP as nat
        },
        final(ring)@[0].turbine_token == turbine_token,
        final(ring)@[0].angle == angle,
        final(ring)@[0].max_temp == spec_max_temp_of(data@),
        final(ring)@[0].dataset_path == dataset_path,
        final(ring)@[0].id@.len() == 36,
        final(ring)@.subrange(1, final(ring)@.len() as int) == old(ring)@.take(
            final(ring)@.len() as int - 1,
        ),
{
    let max_temp = max_temp_of(data);
    let rec = AlertRecord {
        id: fresh_alert_id(),
        timestamp: unix_now(),
        turbine_token,
        max_temp,
        angle,
        dataset_path,
    };
    let ghost rec_g = rec;
    ring.push(rec);
    proof {
        let l = ring@.len() as int;
        assert(ring@ == (seq![rec_g] + old(ring)@).take(l));
        assert(ring@[0] == rec_g);
        assert(ring@.subrange(1, l) =~= old(ring)@.take(l - 1));
    }
}

/// The live status as of now: a snapshot of the stored value, reinterpreted
/// against the staleness window at the current time. The result is either
/// the stored value itself or its offline transform; the stored value is
/// never changed.
pub fn current_status(store: &StateStore) -> (r: LiveStatus)
    ensures
        r == store.live || (r.last_update == store.live.last_update && r.turbine_token
            == store.live.turbine_token && r.mode@ == "Lost Connection"@ && r.current_angle
            == store.live.current_angle && r.current_max_temp == store.live.current_max_temp
            && r.is_online == false),
{
    let now = unix_now();
    store.get_status(now)
}

/// The heartbeat handshake stamped with the current time: applies the
/// incoming status (forcing `is_online` and the heartbeat time) and returns
/// the authoritative configuration unchanged.
pub fn heartbeat_now(store: &mut StateStore, incoming: LiveStatus) -> (cfg: RemoteConfig)
    ensures
        final(store).live.turbine_token == incoming.turbine_token,
        final(store).live.mode == incoming.mode,
        final(store).live.current_angle == incoming.current_angle,
        final(store).live.current_max_temp == incoming.current_max_temp,
        final(store).live.is_online == true,
        final(store).config == old(store).config,
        cfg == old(store).config,
{
    let now = unix_now();
    store.heartbeat(incoming, now)
}

} // verus!
