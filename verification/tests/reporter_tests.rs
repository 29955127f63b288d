use anomaly_detection_system::duration::Duration;
use anomaly_detection_system::parser::{NetworkEvent, Protocol};
use anomaly_detection_system::reporter::{severity, status_word, AnomalyReport, Severity};

#[test]
fn severity_has_its_tiers_at_seven_and_eight_tenths() {
    assert_eq!(severity(1_000_000), Severity::High);
    assert_eq!(severity(800_000), Severity::High);
    assert_eq!(severity(799_999), Severity::Medium);
    assert_eq!(severity(700_000), Severity::Medium);
    assert_eq!(severity(699_999), Severity::Low);
    assert_eq!(severity(650_000), Severity::Low);
    assert_eq!(severity(0), Severity::Low);
}

#[test]
fn severity_labels_are_upper_case_words() {
    assert_eq!(Severity::High.label(), "HIGH");
    assert_eq!(Severity::Medium.label(), "MEDIUM");
    assert_eq!(Severity::Low.label(), "LOW");
}

#[test]
fn report_severity_goes_by_its_score() {
    let report = AnomalyReport {
        event: NetworkEvent {
            timestamp: 0,
            timestamp_nanos: 0,
            src_ip: "10.0.0.1".to_string(),
            src_port: 1,
            dst_ip: "10.0.0.2".to_string(),
            dst_port: 2,
            protocol: Protocol::Icmp,
            bytes: 3,
            duration: Duration::Finite { negative: false, micros: 4 },
        },
        score: 712_345,
        event_number: 9,
    };
    assert_eq!(report.severity(), Severity::Medium);
}

#[test]
fn status_word_names_the_state() {
    assert_eq!(status_word(true), "detecting");
    assert_eq!(status_word(false), "buffering");
}
