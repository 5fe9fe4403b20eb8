//! Unit tests of the wire codec, probing, configuration, and metrics.

use smartengine::config::SmartModuleConfig;
use smartengine::errors::EngineError;
use smartengine::metrics::SmartModuleChainMetrics;
use smartengine::metrics::sat_add;
use smartengine::records::Record;
use smartengine::transform::select_transform;
use smartengine::transform::TransformKind;
use smartengine::wire::decode_input;
use smartengine::wire::decode_output;
use smartengine::wire::encode_input;
use smartengine::wire::encode_output;
use smartengine::wire::GuestError;
use smartengine::wire::GuestOutput;
use smartengine::records::WireRecord;

#[test]
fn test_input_round_trip() {
    let records = vec![
        Record {
            key: Some(b"k1".to_vec()),
            value: b"v1".to_vec(),
            timestamp: -42,
            offset: 7,
        },
        Record {
            key: None,
            value: b"second value".to_vec(),
            timestamp: 123456789,
            offset: 8,
        },
    ];
    let join = Some(vec![Record {
        key: None,
        value: b"joined".to_vec(),
        timestamp: 0,
        offset: 0,
    }]);
    let bytes = encode_input(-77, &records, &join);
    let decoded = decode_input(&bytes).expect("round trip");
    assert_eq!(decoded.base_offset, -77);
    assert_eq!(decoded.records.len(), 2);
    assert_eq!(decoded.records[0].key.as_deref(), Some(b"k1".as_slice()));
    assert_eq!(decoded.records[0].value.as_slice(), b"v1");
    assert_eq!(decoded.records[0].timestamp, -42);
    assert_eq!(decoded.records[1].key, None);
    assert_eq!(decoded.records[1].value.as_slice(), b"second value");
    assert_eq!(decoded.records[1].timestamp, 123456789);
    let j = decoded.join_records.expect("join batch");
    assert_eq!(j.len(), 1);
    assert_eq!(j[0].value.as_slice(), b"joined");
}

#[test]
fn test_output_round_trip() {
    let out = GuestOutput {
        records: vec![
            WireRecord {
                key: Some(b"key".to_vec()),
                value: b"value".to_vec(),
                timestamp: -1,
            },
            WireRecord {
                key: None,
                value: Vec::new(),
                timestamp: i64::MAX,
            },
        ],
        error: Some(GuestError {
            code: 0xDEAD,
            message: b"something went wrong".to_vec(),
        }),
    };
    let bytes = encode_output(&out);
    let decoded = decode_output(&bytes).expect("round trip");
    assert_eq!(decoded.records.len(), 2);
    assert_eq!(decoded.records[0].key.as_deref(), Some(b"key".as_slice()));
    assert_eq!(decoded.records[0].value.as_slice(), b"value");
    assert_eq!(decoded.records[0].timestamp, -1);
    assert_eq!(decoded.records[1].key, None);
    assert_eq!(decoded.records[1].value.len(), 0);
    assert_eq!(decoded.records[1].timestamp, i64::MAX);
    let e = decoded.error.expect("error signal");
    assert_eq!(e.code, 0xDEAD);
    assert_eq!(e.message.as_slice(), b"something went wrong");
}

#[test]
fn test_output_empty_round_trip() {
    let out = GuestOutput { records: Vec::new(), error: None };
    let bytes = encode_output(&out);
    let decoded = decode_output(&bytes).expect("round trip");
    assert_eq!(decoded.records.len(), 0);
    assert!(decoded.error.is_none());
}

#[test]
fn test_malformed_buffers() {
    assert_eq!(decode_output(&vec![5]).err(), Some(EngineError::Serialization));
    assert_eq!(decode_output(&Vec::new()).err(), Some(EngineError::Serialization));
    // Trailing garbage is malformed.
    let mut bytes = encode_output(&GuestOutput { records: Vec::new(), error: None });
    bytes.push(0);
    assert_eq!(decode_output(&bytes).err(), Some(EngineError::Serialization));
    // A record count that overruns the buffer is malformed.
    let huge = vec![0xFF; 8];
    assert_eq!(decode_output(&huge).err(), Some(EngineError::Serialization));
    assert_eq!(decode_input(&vec![9, 9]).err(), Some(EngineError::Serialization));
}

#[test]
fn test_select_transform() {
    let one = vec![String::from("ignored"), String::from("array_map")];
    assert_eq!(select_transform(&one, None), Ok(TransformKind::ArrayMap));

    let none: Vec<String> = vec![String::from("other")];
    assert_eq!(select_transform(&none, None), Err(EngineError::InvalidModule));

    let two = vec![String::from("map"), String::from("join")];
    assert_eq!(select_transform(&two, None), Err(EngineError::InvalidModule));

    let hinted = vec![String::from("aggregate")];
    assert_eq!(
        select_transform(&hinted, Some(TransformKind::Aggregate)),
        Ok(TransformKind::Aggregate)
    );
    assert_eq!(
        select_transform(&hinted, Some(TransformKind::Join)),
        Err(EngineError::InvalidModule)
    );
}

#[test]
fn test_transform_names() {
    assert_eq!(TransformKind::RecordMap.name(), String::from("map"));
    assert_eq!(TransformKind::Filter.name(), String::from("filter"));
    assert_eq!(TransformKind::FilterMap.name(), String::from("filter_map"));
    assert_eq!(TransformKind::ArrayMap.name(), String::from("array_map"));
    assert_eq!(TransformKind::Aggregate.name(), String::from("aggregate"));
    assert_eq!(TransformKind::Join.name(), String::from("join"));
}

#[test]
fn test_config_params() {
    let mut config = SmartModuleConfig::new();
    config.set_param(String::from("threshold"), String::from("10"));
    config.set_param(String::from("mode"), String::from("strict"));
    config.set_param(String::from("threshold"), String::from("20"));
    // First binding wins.
    assert_eq!(
        config.lookup_param(&String::from("threshold")),
        Some(&String::from("10"))
    );
    assert_eq!(
        config.lookup_param(&String::from("mode")),
        Some(&String::from("strict"))
    );
    assert_eq!(config.lookup_param(&String::from("missing")), None);
}

#[test]
fn test_metrics_saturation() {
    assert_eq!(sat_add(1, 2), 3);
    assert_eq!(sat_add(u64::MAX - 1, 1), u64::MAX);
    assert_eq!(sat_add(u64::MAX - 1, 5), u64::MAX);
    assert_eq!(sat_add(u64::MAX, u64::MAX), u64::MAX);

    let mut m = SmartModuleChainMetrics::new();
    m.add_stage(3, 2, 100, 90, 1);
    assert_eq!(m.records_in, 3);
    assert_eq!(m.records_out, 2);
    assert_eq!(m.bytes_in, 100);
    assert_eq!(m.bytes_out, 90);
    assert_eq!(m.errors, 1);
    m.add_stage(u64::MAX, 0, 0, 0, 0);
    assert_eq!(m.records_in, u64::MAX);
    assert_eq!(m.records_out, 2);
}
