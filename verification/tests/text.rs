use sleipnir::fuzz_pool::{export_failure_log, export_log, fuzz_record};
use sleipnir::text::{decimal, join_lines};

#[test]
fn decimal_renders_like_display() {
    assert_eq!(decimal(0), "0");
    assert_eq!(decimal(7), "7");
    assert_eq!(decimal(10), "10");
    assert_eq!(decimal(123456), "123456");
    assert_eq!(decimal(u64::MAX), u64::MAX.to_string());
}

#[test]
fn join_lines_like_join() {
    assert_eq!(join_lines(&vec![]), "");
    assert_eq!(join_lines(&vec!["one".to_string()]), "one");
    let lines = vec!["{".to_string(), "  \"query\": 1".to_string(), "}".to_string()];
    assert_eq!(join_lines(&lines), lines.join("\n"));
}

#[test]
fn fuzz_record_line() {
    assert_eq!(
        fuzz_record(1782121500, "tx_98234-a8f"),
        "{\"timestamp\": 1782121500, \"transaction_id\": \"tx_98234-a8f\", \"flag\": \"ADVERSARIAL_FUZZ_TARGET\"}\n"
    );
    assert_eq!(
        fuzz_record(0, "t"),
        "{\"timestamp\": 0, \"transaction_id\": \"t\", \"flag\": \"ADVERSARIAL_FUZZ_TARGET\"}\n"
    );
}

#[test]
fn export_logs() {
    assert_eq!(export_log("tx_1"), "EXPORTED TO CHANDRIAN: tx_1");
    assert_eq!(export_failure_log("disk full"), "EXPORTED TO CHANDRIAN FAILURE: disk full");
}

#[test]
fn fuzz_record_reads_back_as_json() {
    let line = fuzz_record(1782121500, "tx_98234-a8f");
    let value: serde_json::Value = serde_json::from_str(line.trim_end()).unwrap();
    let object = value.as_object().unwrap();
    assert_eq!(object.len(), 3);
    assert_eq!(object["timestamp"].as_u64(), Some(1782121500));
    assert_eq!(object["transaction_id"].as_str(), Some("tx_98234-a8f"));
    assert_eq!(object["flag"].as_str(), Some("ADVERSARIAL_FUZZ_TARGET"));
}
