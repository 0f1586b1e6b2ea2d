use openflite::dummy::DummyClient;
use openflite::msfs::MSFSClient;
use openflite::value::SimValue;
use openflite::xplane::XPlaneClient;
use openflite::CoreError;

fn record(index: u32, value: f32) -> Vec<u8> {
    let mut r = index.to_le_bytes().to_vec();
    r.extend_from_slice(&value.to_bits().to_le_bytes());
    r
}

fn rref_datagram(records: &[(u32, f32)]) -> Vec<u8> {
    let mut d = b"RREF".to_vec();
    d.push(0);
    for &(i, v) in records {
        d.extend_from_slice(&record(i, v));
    }
    d
}

#[test]
fn subscription_indices_count_up_from_one() {
    let mut c = XPlaneClient::new("127.0.0.1:49000");
    c.mark_connected();
    let f1 = c.subscribe("sim/a", 10).unwrap();
    let f2 = c.subscribe("sim/b", 10).unwrap();
    let f3 = c.subscribe("sim/a", 10).unwrap();
    assert_eq!(f1.len(), 413);
    assert_eq!(&f1[0..4], b"RREF");
    assert_eq!(f1[4], 0);
    assert_eq!(&f1[5..9], &10i32.to_le_bytes());
    assert_eq!(&f1[9..13], &1u32.to_le_bytes());
    assert_eq!(&f1[13..18], b"sim/a");
    assert_eq!(f1[18], 0);
    assert!(f1[18..].iter().all(|&b| b == 0));
    assert_eq!(&f2[9..13], &2u32.to_le_bytes());
    assert_eq!(&f3[9..13], &3u32.to_le_bytes());
}

#[test]
fn subscribe_requires_connection() {
    let mut c = XPlaneClient::new("127.0.0.1:49000");
    assert_eq!(c.subscribe("sim/a", 10), Err(CoreError::NotConnected));
}

#[test]
fn write_and_command_frames_have_wire_layout() {
    let mut c = XPlaneClient::new("127.0.0.1:49000");
    assert_eq!(c.write_variable("sim/x", 0), Err(CoreError::NotConnected));
    assert_eq!(c.execute_command("cmd/y"), Err(CoreError::NotConnected));
    c.mark_connected();
    let bits = 2.5f32.to_bits();
    let w = c.write_variable("sim/x", bits).unwrap();
    assert_eq!(w.len(), 509);
    assert_eq!(&w[0..4], b"DREF");
    assert_eq!(w[4], 0);
    assert_eq!(&w[5..9], &bits.to_le_bytes());
    assert_eq!(&w[9..14], b"sim/x");
    assert!(w[14..].iter().all(|&b| b == 0));
    let x = c.execute_command("cmd/y").unwrap();
    assert_eq!(x.len(), 505);
    assert_eq!(&x[0..4], b"CMND");
    assert_eq!(x[4], 0);
    assert_eq!(&x[5..10], b"cmd/y");
    assert!(x[10..].iter().all(|&b| b == 0));
}

#[test]
fn long_names_are_truncated_on_the_wire() {
    let mut c = XPlaneClient::new("127.0.0.1:49000");
    c.mark_connected();
    let long = "x".repeat(600);
    let f = c.subscribe(&long, 1).unwrap();
    assert_eq!(f.len(), 413);
    assert!(f[13..413].iter().all(|&b| b == b'x'));
}

#[test]
fn inbound_records_update_subscribed_variables() {
    let mut c = XPlaneClient::new("127.0.0.1:49000");
    c.mark_connected();
    c.subscribe("sim/alt", 10).unwrap();
    c.subscribe("sim/rpm", 10).unwrap();
    c.apply_datagram(&rref_datagram(&[(1, 1200.5), (2, -3.25)]));
    assert_eq!(c.read_variable("sim/alt"), Ok(SimValue::from_micros(1_200_500_000)));
    assert_eq!(c.read_variable("sim/rpm"), Ok(SimValue::from_micros(-3_250_000)));
}

#[test]
fn unsubscribed_index_updates_nothing() {
    let mut c = XPlaneClient::new("127.0.0.1:49000");
    c.mark_connected();
    c.subscribe("sim/alt", 10).unwrap();
    c.apply_datagram(&rref_datagram(&[(99, 42.0)]));
    assert_eq!(c.get_all_variables().len(), 0);
    assert_eq!(c.read_variable("sim/alt"), Err(CoreError::NotFound));
}

#[test]
fn foreign_datagrams_leave_snapshot_unchanged() {
    let mut c = XPlaneClient::new("127.0.0.1:49000");
    c.mark_connected();
    c.subscribe("sim/alt", 10).unwrap();
    c.apply_datagram(&rref_datagram(&[(1, 7.0)]));
    c.apply_datagram(b"BECN junk");
    c.apply_datagram(&[]);
    assert_eq!(c.read_variable("sim/alt"), Ok(SimValue::from_units(7)));
}

#[test]
fn disconnect_discards_subscriptions() {
    let mut c = XPlaneClient::new("127.0.0.1:49000");
    c.mark_connected();
    c.subscribe("sim/alt", 10).unwrap();
    c.disconnect();
    c.mark_connected();
    let f = c.subscribe("sim/alt", 10).unwrap();
    assert_eq!(&f[9..13], &1u32.to_le_bytes());
}

#[test]
fn http_poll_failure_keeps_previous_snapshot() {
    let mut c = MSFSClient::new();
    c.apply_probe(true).unwrap();
    c.apply_poll(Some(vec![("alt".to_string(), SimValue::from_units(1200))]));
    // A timed-out poll hands back no variable set.
    c.apply_poll(None);
    assert!(c.connected);
    assert_eq!(c.read_variable("alt"), Ok(SimValue::from_units(1200)));
}

#[test]
fn http_poll_success_replaces_snapshot_wholesale() {
    let mut c = MSFSClient::with_url("http://10.0.0.2:8080");
    c.apply_probe(true).unwrap();
    c.apply_poll(Some(vec![
        ("alt".to_string(), SimValue::from_units(1200)),
        ("rpm".to_string(), SimValue::from_units(2500)),
    ]));
    c.apply_poll(Some(vec![("hdg".to_string(), SimValue::from_units(90))]));
    assert_eq!(c.read_variable("alt"), Err(CoreError::NotFound));
    assert_eq!(c.read_variable("hdg"), Ok(SimValue::from_units(90)));
}

#[test]
fn http_probe_failure_surfaces_transport_error() {
    let mut c = MSFSClient::new();
    assert_eq!(c.apply_probe(false), Err(CoreError::TransportError));
    assert!(!c.connected);
}

#[test]
fn http_writes_require_connection() {
    let c = MSFSClient::new();
    assert_eq!(c.prepare_write("alt", SimValue::from_units(1)), Err(CoreError::NotConnected));
    assert_eq!(c.prepare_command("gear"), Err(CoreError::NotConnected));
}

#[test]
fn http_payloads_are_exact_json() {
    let mut c = MSFSClient::new();
    c.apply_probe(true).unwrap();
    assert_eq!(
        c.prepare_write("A:ALT", SimValue::from_micros(1_500_000)).unwrap(),
        "{\"name\":\"A:ALT\",\"value\":1.500000}"
    );
    assert_eq!(
        c.prepare_write("n", SimValue::from_micros(-250_000)).unwrap(),
        "{\"name\":\"n\",\"value\":-0.250000}"
    );
    assert_eq!(
        c.prepare_command("gear_toggle").unwrap(),
        "{\"event\":\"gear_toggle\"}"
    );
    assert_eq!(
        c.prepare_command("say \"hi\"\\now").unwrap(),
        "{\"event\":\"say \\\"hi\\\"\\\\now\"}"
    );
}

#[test]
fn dummy_counter_drives_deterministic_snapshot() {
    let mut d = DummyClient::new();
    assert_eq!(d.get_all_variables().len(), 0);
    d.connect().unwrap();
    d.poll().unwrap();
    d.poll().unwrap();
    let vars = d.get_all_variables();
    assert_eq!(vars.len(), 3);
    assert_eq!(
        vars.lookup("sim/flightmodel/position/altitude"),
        Some(SimValue::from_micros(1_000_200_000))
    );
    assert_eq!(
        vars.lookup("sim/cockpit2/controls/gear_handle_down"),
        Some(SimValue::from_units(0))
    );
    assert_eq!(
        vars.lookup("sim/flightmodel/engine/ENGN_RPM[0]"),
        Some(SimValue::from_units(2402))
    );
    assert_eq!(d.read_variable("anything"), Ok(SimValue::from_units(0)));
}
