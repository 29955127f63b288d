use anomaly_detection_system::duration::Duration;
use anomaly_detection_system::features::{extract_features, FEATURE_COUNT};
use anomaly_detection_system::parser::{parse_line, NetworkEvent, Protocol};

fn event(protocol: Protocol, bytes: u64, micros: u64) -> NetworkEvent {
    lasting(protocol, bytes, Duration::Finite { negative: false, micros })
}

fn lasting(protocol: Protocol, bytes: u64, duration: Duration) -> NetworkEvent {
    NetworkEvent {
        timestamp: 1,
        timestamp_nanos: 2,
        src_ip: "a".to_string(),
        src_port: 54321,
        dst_ip: "b".to_string(),
        dst_port: 443,
        protocol,
        bytes,
        duration,
    }
}

#[test]
fn features_are_ports_protocol_bytes_and_duration() {
    assert_eq!(
        extract_features(&event(Protocol::Tcp, 1500, 50_000)),
        vec![54321, 443, 0, 1500, 50_000]
    );
    assert_eq!(extract_features(&event(Protocol::Udp, 0, 0)), vec![54321, 443, 1, 0, 0]);
    assert_eq!(extract_features(&event(Protocol::Icmp, 1, 2))[2], 2);
    assert_eq!(extract_features(&event(Protocol::Other, 1, 2))[2], 3);
    assert_eq!(extract_features(&event(Protocol::Tcp, 1, 2)).len(), FEATURE_COUNT);
}

#[test]
fn features_are_capped_at_the_greatest_value() {
    let features = extract_features(&event(Protocol::Tcp, u64::MAX, i64::MAX as u64 + 1));
    assert_eq!(features[3], i64::MAX);
    assert_eq!(features[4], i64::MAX);
    let features = extract_features(&event(Protocol::Tcp, i64::MAX as u64, i64::MAX as u64 - 1));
    assert_eq!(features[3], i64::MAX);
    assert_eq!(features[4], i64::MAX - 1);
}

#[test]
fn features_of_a_parsed_line() {
    let line = "2024-01-15T10:30:00 10.0.0.1 12345 10.0.0.2 53 UDP 64 0.01";
    let event = parse_line(line).unwrap();
    assert_eq!(extract_features(&event), vec![12345, 53, 1, 64, 10_000]);
}

#[test]
fn duration_feature_carries_the_sign() {
    let owed = Duration::Finite { negative: true, micros: 1_500 };
    assert_eq!(extract_features(&lasting(Protocol::Tcp, 1, owed))[4], -1_500);
    let far = Duration::Finite { negative: true, micros: u64::MAX };
    assert_eq!(extract_features(&lasting(Protocol::Tcp, 1, far))[4], -i64::MAX);
    let line = "2024-01-15T10:30:00 10.0.0.1 12345 10.0.0.2 53 UDP 64 -2.5e-3";
    assert_eq!(extract_features(&parse_line(line).unwrap()), vec![12345, 53, 1, 64, -2_500]);
}

#[test]
fn unbounded_and_undefined_durations_have_features() {
    let endless = Duration::Infinite { negative: false };
    assert_eq!(extract_features(&lasting(Protocol::Tcp, 1, endless))[4], i64::MAX);
    let endless = Duration::Infinite { negative: true };
    assert_eq!(extract_features(&lasting(Protocol::Tcp, 1, endless))[4], -i64::MAX);
    assert_eq!(extract_features(&lasting(Protocol::Tcp, 1, Duration::NotANumber))[4], 0);
}
