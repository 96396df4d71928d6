use sentinel_cloud::alerts::{AlertRecord, AlertRing};
use sentinel_cloud::codec::Grid;
use sentinel_cloud::pipeline::ingest_saved_capture;

fn record(n: u64) -> AlertRecord {
    AlertRecord {
        id: format!("id-{}", n),
        timestamp: n,
        turbine_token: "T1".to_string(),
        max_temp: 0,
        angle: 0,
        dataset_path: format!("capture_T1_{}.npz", n),
    }
}

#[test]
fn ring_keeps_newest_first() {
    let mut ring = AlertRing::new();
    ring.push(record(1));
    ring.push(record(2));
    ring.push(record(3));
    let l = ring.list();
    assert_eq!(l.len(), 3);
    assert_eq!(l[0].timestamp, 3);
    assert_eq!(l[1].timestamp, 2);
    assert_eq!(l[2].timestamp, 1);
}

#[test]
fn ring_never_exceeds_cap_and_evicts_oldest() {
    // After 51 pushes the length is capped at 50 and the first record is
    // gone from the listing.
    let mut ring = AlertRing::new();
    for n in 1..=51u64 {
        ring.push(record(n));
        assert!(ring.len() <= 50);
    }
    assert_eq!(ring.len(), 50);
    let l = ring.list();
    assert_eq!(l[0].id, "id-51");
    assert_eq!(l[49].id, "id-2");
    assert!(l.iter().all(|r| r.id != "id-1"));
}

#[test]
fn ingest_appends_exactly_one_record() {
    let g = Grid {
        rows: 2,
        cols: 2,
        data: vec![1.0f32.to_bits(), 2.0f32.to_bits(), 3.0f32.to_bits(), 4.0f32.to_bits()],
    };
    let bytes = g.encode();
    let mut ring = AlertRing::new();
    ingest_saved_capture(
        &mut ring,
        "T1".to_string(),
        45.0f32.to_bits(),
        &bytes,
        "capture_T1_1000.npz".to_string(),
    );
    assert_eq!(ring.len(), 1);
    let l = ring.list();
    assert_eq!(l[0].turbine_token, "T1");
    assert_eq!(l[0].angle, 45.0f32.to_bits());
    assert_eq!(l[0].max_temp, 4.0f32.to_bits());
    assert_eq!(l[0].dataset_path, "capture_T1_1000.npz");
    assert_eq!(l[0].id.len(), 36);
}

#[test]
fn ingest_ids_are_fresh() {
    let mut ring = AlertRing::new();
    ingest_saved_capture(&mut ring, "T1".to_string(), 0, b"junk", "a.npz".to_string());
    ingest_saved_capture(&mut ring, "T1".to_string(), 0, b"junk", "b.npz".to_string());
    let l = ring.list();
    assert_ne!(l[0].id, l[1].id);
}

#[test]
fn ingest_defaults_max_temp_on_malformed_capture() {
    // A capture that does not decode must not fail the upload: the record
    // is still appended, with a peak temperature of 0.
    let mut ring = AlertRing::new();
    ingest_saved_capture(
        &mut ring,
        "T9".to_string(),
        0.0f32.to_bits(),
        b"not a capture",
        "capture_T9_5.npz".to_string(),
    );
    assert_eq!(ring.len(), 1);
    assert_eq!(ring.list()[0].max_temp, 0.0f32.to_bits());
}
