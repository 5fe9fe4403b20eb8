//! End-to-end tests of chain building and batch processing, driven by
//! simulated guest modules.

use smartengine::chain::SmartModuleChain;
use smartengine::chain::SmartModuleChainBuilder;
use smartengine::config::SmartModuleConfig;
use smartengine::errors::EngineError;
use smartengine::errors::SERIALIZATION_ERROR_CODE;
use smartengine::guest::GuestModule;
use smartengine::guest::GuestResponse;
use smartengine::guest::SmartEngine;
use smartengine::metrics::SmartModuleChainMetrics;
use smartengine::records::Record;
use smartengine::records::SmartModuleInput;
use smartengine::transform::TransformKind;
use smartengine::wire::decode_input;
use smartengine::wire::encode_output;
use smartengine::wire::GuestError;
use smartengine::wire::GuestOutput;
use smartengine::records::WireRecord;

/// A simulated guest module with a fixed behaviour per variant.
#[derive(Clone)]
enum TestGuest {
    /// Maps every record to itself.
    IdentityMap,
    /// Maps records through, but traps on one poisoned value.
    TrapOnValue(Vec<u8>),
    /// Splits a bracketed, comma-separated value into one record per
    /// element.
    ArraySplit,
    /// Passes records with even-length values, drops the rest.
    EvenFilter,
    /// Emits a running count of the records seen by this instance.
    CountAggregate(u64),
    /// Always signals a guest-side error with code 42.
    ErrorSignal,
    /// Returns bytes that are not a result buffer.
    Malformed,
    /// Exports no recognized entry point.
    NoExport,
    /// Exports two recognized entry points.
    DualExport,
    /// Cannot be instantiated.
    FailInstantiate,
    /// Maps each record, appending the first joined record's value.
    JoinEcho,
    /// A filter that accepts every record but answers with a rewritten
    /// one; the engine must ignore the rewrite.
    TamperFilter,
    /// A map whose output value reports whether the call carried an
    /// auxiliary join batch.
    JoinProbeMap,
}

fn ok_output(records: Vec<WireRecord>) -> GuestResponse {
    GuestResponse::Payload(encode_output(&GuestOutput { records, error: None }))
}

impl GuestModule for TestGuest {
    fn instantiate(
        &self,
        _engine: &SmartEngine,
        _config: &SmartModuleConfig,
    ) -> Result<Self, EngineError> {
        match self {
            TestGuest::FailInstantiate => Err(EngineError::Compile),
            TestGuest::CountAggregate(_) => Ok(TestGuest::CountAggregate(0)),
            other => Ok(other.clone()),
        }
    }

    fn exports(&self) -> Vec<String> {
        match self {
            TestGuest::IdentityMap => vec![String::from("map")],
            TestGuest::TrapOnValue(_) => vec![String::from("map")],
            TestGuest::ArraySplit => vec![String::from("array_map")],
            TestGuest::EvenFilter => vec![String::from("filter")],
            TestGuest::CountAggregate(_) => vec![String::from("aggregate")],
            TestGuest::ErrorSignal => vec![String::from("map")],
            TestGuest::Malformed => vec![String::from("map")],
            TestGuest::NoExport => vec![String::from("frobnicate")],
            TestGuest::DualExport => vec![String::from("map"), String::from("filter")],
            TestGuest::FailInstantiate => vec![String::from("map")],
            TestGuest::JoinEcho => vec![String::from("join")],
            TestGuest::TamperFilter => vec![String::from("filter")],
            TestGuest::JoinProbeMap => vec![String::from("map")],
        }
    }

    fn invoke(&mut self, payload: &Vec<u8>) -> GuestResponse {
        let input = decode_input(payload).expect("input payload must decode");
        match self {
            TestGuest::IdentityMap => ok_output(input.records),
            TestGuest::TrapOnValue(needle) => {
                if input.records.iter().any(|r| r.value == *needle) {
                    GuestResponse::Trap(7, b"boom".to_vec())
                } else {
                    ok_output(input.records)
                }
            },
            TestGuest::ArraySplit => {
                let v = &input.records[0].value;
                let interior = &v[1..v.len() - 1];
                let parts: Vec<WireRecord> = interior
                    .split(|b| *b == b',')
                    .map(|p| WireRecord { key: None, value: p.to_vec(), timestamp: 0 })
                    .collect();
                ok_output(parts)
            },
            TestGuest::EvenFilter => {
                if input.records[0].value.len() % 2 == 0 {
                    ok_output(input.records)
                } else {
                    ok_output(Vec::new())
                }
            },
            TestGuest::CountAggregate(counter) => {
                let mut out = Vec::new();
                for _r in input.records.iter() {
                    *counter += 1;
                    out.push(WireRecord {
                        key: None,
                        value: format!("{}", *counter).into_bytes(),
                        timestamp: 0,
                    });
                }
                ok_output(out)
            },
            TestGuest::ErrorSignal => GuestResponse::Payload(encode_output(&GuestOutput {
                records: Vec::new(),
                error: Some(GuestError { code: 42, message: b"bad record".to_vec() }),
            })),
            TestGuest::Malformed => GuestResponse::Payload(vec![1, 2, 3]),
            TestGuest::JoinEcho => {
                let joined = match &input.join_records {
                    Some(j) if !j.is_empty() => j[0].value.clone(),
                    _ => Vec::new(),
                };
                let out = input
                    .records
                    .into_iter()
                    .map(|mut r| {
                        r.value.push(b'|');
                        r.value.extend_from_slice(&joined);
                        r
                    })
                    .collect();
                ok_output(out)
            },
            TestGuest::TamperFilter => ok_output(vec![WireRecord {
                key: None,
                value: b"tampered".to_vec(),
                timestamp: 99,
            }]),
            TestGuest::JoinProbeMap => {
                let value = if input.join_records.is_some() {
                    b"with_join".to_vec()
                } else {
                    b"no_join".to_vec()
                };
                ok_output(vec![WireRecord { key: None, value, timestamp: 0 }])
            },
            _ => GuestResponse::Trap(0, Vec::new()),
        }
    }
}

fn rec(value: &str, offset: i64) -> Record {
    Record {
        key: None,
        value: value.as_bytes().to_vec(),
        timestamp: 0,
        offset,
    }
}

fn build_chain(modules: Vec<TestGuest>) -> SmartModuleChain<TestGuest> {
    let engine = SmartEngine::new();
    let mut builder = SmartModuleChainBuilder::default();
    for m in modules {
        builder.add_smart_module(SmartModuleConfig::new(), m);
    }
    builder.initialize(&engine).expect("failed to build chain")
}

#[test]
fn test_array_map() {
    let engine = SmartEngine::new();
    let mut chain_builder = SmartModuleChainBuilder::default();

    chain_builder.add_smart_module(SmartModuleConfig::new(), TestGuest::ArraySplit);

    let mut chain = chain_builder
        .initialize(&engine)
        .expect("failed to build chain");

    assert_eq!(
        chain.instances()[0].transform().name(),
        String::from("array_map")
    );

    let mut metrics = SmartModuleChainMetrics::default();

    let input = vec![Record::new(
        "[\"Apple\",\"Banana\",\"Cranberry\"]".as_bytes().to_vec(),
    )];
    let (output, _) = chain.process(SmartModuleInput::new(input), &mut metrics);
    assert_eq!(output.successes.len(), 3); // generate 3 records
    assert_eq!(output.successes[0].value.as_slice(), b"\"Apple\"");
    assert_eq!(output.successes[1].value.as_slice(), b"\"Banana\"");
    assert_eq!(output.successes[2].value.as_slice(), b"\"Cranberry\"");
    assert_eq!(output.failures.len(), 0);
}

#[test]
fn test_identity_chain() {
    // Three identity map stages leave any batch unchanged.
    let mut chain = build_chain(vec![
        TestGuest::IdentityMap,
        TestGuest::IdentityMap,
        TestGuest::IdentityMap,
    ]);
    let mut metrics = SmartModuleChainMetrics::default();
    let values = ["alpha", "beta", "gamma", "delta"];
    let input: Vec<Record> = values
        .iter()
        .enumerate()
        .map(|(i, v)| rec(v, i as i64))
        .collect();
    let (output, _) = chain.process(SmartModuleInput::new(input), &mut metrics);
    assert_eq!(output.successes.len(), 4);
    assert_eq!(output.failures.len(), 0);
    for (i, v) in values.iter().enumerate() {
        assert_eq!(output.successes[i].value.as_slice(), v.as_bytes());
        assert_eq!(output.successes[i].offset, i as i64);
    }
}

#[test]
fn test_filter_conservation() {
    // Even-length values pass, odd-length values are dropped; a
    // dropped record is not a failure.
    let mut chain = build_chain(vec![TestGuest::EvenFilter]);
    let mut metrics = SmartModuleChainMetrics::default();
    let values = ["even", "odd", "also_even", "x", "ab"];
    let input: Vec<Record> = values
        .iter()
        .enumerate()
        .map(|(i, v)| rec(v, i as i64))
        .collect();
    let (output, _) = chain.process(SmartModuleInput::new(input), &mut metrics);
    let expected: Vec<&str> = values.iter().filter(|v| v.len() % 2 == 0).cloned().collect();
    assert_eq!(output.successes.len(), expected.len());
    for (i, v) in expected.iter().enumerate() {
        assert_eq!(output.successes[i].value.as_slice(), v.as_bytes());
    }
    // count(successes) + count(dropped) == count(inputs), no failures
    assert_eq!(output.failures.len(), 0);
    let dropped = values.len() - output.successes.len();
    assert_eq!(output.successes.len() + dropped, values.len());
    assert_eq!(dropped, 3);
}

#[test]
fn test_failure_containment() {
    // A record that traps at stage 1 of 2 is not seen by stage 2 and
    // appears exactly once among the failures, under its identity.
    let mut chain = build_chain(vec![
        TestGuest::TrapOnValue(b"bad".to_vec()),
        TestGuest::IdentityMap,
    ]);
    let mut metrics = SmartModuleChainMetrics::default();
    let input = vec![rec("ok1", 10), rec("bad", 11), rec("ok2", 12)];
    let (output, _) = chain.process(SmartModuleInput::new(input), &mut metrics);
    assert_eq!(output.successes.len(), 2);
    assert_eq!(output.successes[0].value.as_slice(), b"ok1");
    assert_eq!(output.successes[1].value.as_slice(), b"ok2");
    assert!(output.successes.iter().all(|r| r.offset != 11));
    assert_eq!(output.failures.len(), 1);
    assert_eq!(output.failures[0].offset, 11);
    assert_eq!(output.failures[0].code, 7);
    assert_eq!(output.failures[0].message.as_slice(), b"boom");
}

#[test]
fn test_aggregate_persistence() {
    // The accumulator of an aggregate stage survives across process
    // calls on the same chain: 2 then 3 records give running totals
    // 2 then 5.
    let mut chain = build_chain(vec![TestGuest::CountAggregate(0)]);
    let mut metrics = SmartModuleChainMetrics::default();

    let first = vec![rec("a", 0), rec("b", 1)];
    let (out1, _) = chain.process(SmartModuleInput::new(first), &mut metrics);
    assert_eq!(out1.successes.len(), 2);
    assert_eq!(out1.successes[0].value.as_slice(), b"1");
    assert_eq!(out1.successes[1].value.as_slice(), b"2");

    let second = vec![rec("c", 2), rec("d", 3), rec("e", 4)];
    let (out2, _) = chain.process(SmartModuleInput::new(second), &mut metrics);
    assert_eq!(out2.successes.len(), 3);
    assert_eq!(out2.successes[0].value.as_slice(), b"3");
    assert_eq!(out2.successes[1].value.as_slice(), b"4");
    assert_eq!(out2.successes[2].value.as_slice(), b"5");
}

#[test]
fn test_chain_isolation() {
    // Two chains built from one builder own independent instance
    // state: identical inputs give identical outputs, and extra calls
    // on one chain leave the other unaffected.
    let engine = SmartEngine::new();
    let mut builder = SmartModuleChainBuilder::default();
    builder.add_smart_module(SmartModuleConfig::new(), TestGuest::CountAggregate(0));
    let mut chain_a = builder.initialize(&engine).expect("chain a");
    let mut chain_b = builder.initialize(&engine).expect("chain b");

    let mut metrics = SmartModuleChainMetrics::default();
    let (a1, _) = chain_a.process(
        SmartModuleInput::new(vec![rec("x", 0), rec("y", 1)]),
        &mut metrics,
    );
    let (b1, _) = chain_b.process(
        SmartModuleInput::new(vec![rec("x", 0), rec("y", 1)]),
        &mut metrics,
    );
    assert_eq!(a1.successes.len(), b1.successes.len());
    for i in 0..a1.successes.len() {
        assert_eq!(a1.successes[i].value, b1.successes[i].value);
    }

    // Drive chain a further; chain b must not observe it.
    let (_, _) = chain_a.process(SmartModuleInput::new(vec![rec("z", 2)]), &mut metrics);
    let (b2, _) = chain_b.process(SmartModuleInput::new(vec![rec("z", 2)]), &mut metrics);
    assert_eq!(b2.successes[0].value.as_slice(), b"3");
}

#[test]
fn test_metrics_monotonicity() {
    // Every counter is non-decreasing across process calls sharing one
    // metrics object, whatever the guests do.
    let mut metrics = SmartModuleChainMetrics::default();
    let mut id_chain = build_chain(vec![TestGuest::IdentityMap]);
    let mut trap_chain = build_chain(vec![TestGuest::TrapOnValue(b"bad".to_vec())]);
    let mut filter_chain = build_chain(vec![TestGuest::EvenFilter]);

    let mut last = metrics;
    for round in 0..3 {
        let input = vec![rec("bad", round), rec("fine", round + 10)];
        let (_, _) = id_chain.process(SmartModuleInput::new(input), &mut metrics);
        assert_monotone(&last, &metrics);
        last = metrics;

        let input = vec![rec("bad", round), rec("fine", round + 10)];
        let (_, _) = trap_chain.process(SmartModuleInput::new(input), &mut metrics);
        assert_monotone(&last, &metrics);
        last = metrics;

        let input = vec![rec("bad", round), rec("fine", round + 10)];
        let (_, _) = filter_chain.process(SmartModuleInput::new(input), &mut metrics);
        assert_monotone(&last, &metrics);
        last = metrics;
    }
}

fn assert_monotone(before: &SmartModuleChainMetrics, after: &SmartModuleChainMetrics) {
    assert!(after.records_in >= before.records_in);
    assert!(after.records_out >= before.records_out);
    assert!(after.bytes_in >= before.bytes_in);
    assert!(after.bytes_out >= before.bytes_out);
    assert!(after.errors >= before.errors);
}

#[test]
fn test_metrics_values() {
    // One identity map stage: exact counter deltas.
    let mut chain = build_chain(vec![TestGuest::IdentityMap]);
    let mut metrics = SmartModuleChainMetrics::default();
    let input = vec![rec("abcd", 0), rec("ef", 1)];
    let (_, _) = chain.process(SmartModuleInput::new(input), &mut metrics);
    assert_eq!(metrics.records_in, 2);
    assert_eq!(metrics.records_out, 2);
    assert_eq!(metrics.bytes_in, 6);
    assert_eq!(metrics.bytes_out, 6);
    assert_eq!(metrics.errors, 0);
}

#[test]
fn test_error_codes() {
    // A guest-signalled error carries the guest's code and message.
    let mut chain = build_chain(vec![TestGuest::ErrorSignal]);
    let mut metrics = SmartModuleChainMetrics::default();
    let (output, _) = chain.process(SmartModuleInput::new(vec![rec("v", 0)]), &mut metrics);
    assert_eq!(output.successes.len(), 0);
    assert_eq!(output.failures.len(), 1);
    assert_eq!(output.failures[0].code, 42);
    assert_eq!(output.failures[0].message.as_slice(), b"bad record");
    assert_eq!(metrics.errors, 1);

    // A buffer that does not decode is a serialization failure.
    let mut chain = build_chain(vec![TestGuest::Malformed]);
    let (output, _) = chain.process(SmartModuleInput::new(vec![rec("v", 5)]), &mut metrics);
    assert_eq!(output.successes.len(), 0);
    assert_eq!(output.failures.len(), 1);
    assert_eq!(output.failures[0].offset, 5);
    assert_eq!(output.failures[0].code, SERIALIZATION_ERROR_CODE);
}

#[test]
fn test_initialize_errors() {
    let engine = SmartEngine::new();

    // No recognized export.
    let mut builder = SmartModuleChainBuilder::default();
    builder.add_smart_module(SmartModuleConfig::new(), TestGuest::NoExport);
    assert_eq!(
        builder.initialize(&engine).err(),
        Some(EngineError::InvalidModule)
    );

    // More than one recognized export.
    let mut builder = SmartModuleChainBuilder::default();
    builder.add_smart_module(SmartModuleConfig::new(), TestGuest::DualExport);
    assert_eq!(
        builder.initialize(&engine).err(),
        Some(EngineError::InvalidModule)
    );

    // Instantiation failure aborts the whole initialization.
    let mut builder = SmartModuleChainBuilder::default();
    builder.add_smart_module(SmartModuleConfig::new(), TestGuest::IdentityMap);
    builder.add_smart_module(SmartModuleConfig::new(), TestGuest::FailInstantiate);
    assert_eq!(builder.initialize(&engine).err(), Some(EngineError::Compile));

    // A kind hint that contradicts the probed kind is invalid.
    let mut builder = SmartModuleChainBuilder::default();
    let mut config = SmartModuleConfig::new();
    config.kind_hint = Some(TransformKind::Filter);
    builder.add_smart_module(config, TestGuest::IdentityMap);
    assert_eq!(
        builder.initialize(&engine).err(),
        Some(EngineError::InvalidModule)
    );

    // A matching hint is accepted.
    let mut builder = SmartModuleChainBuilder::default();
    let mut config = SmartModuleConfig::new();
    config.kind_hint = Some(TransformKind::RecordMap);
    builder.add_smart_module(config, TestGuest::IdentityMap);
    let chain = builder.initialize(&engine).expect("hinted chain");
    assert_eq!(chain.instances()[0].transform(), TransformKind::RecordMap);
}

#[test]
fn test_filter_passes_unchanged() {
    // A record a filter accepts passes through as it was, whatever the
    // guest answered.
    let mut chain = build_chain(vec![TestGuest::TamperFilter]);
    let mut metrics = SmartModuleChainMetrics::default();
    let input = vec![rec("original", 3)];
    let (output, _) = chain.process(SmartModuleInput::new(input), &mut metrics);
    assert_eq!(output.successes.len(), 1);
    assert_eq!(output.successes[0].value.as_slice(), b"original");
    assert_eq!(output.successes[0].timestamp, 0);
    assert_eq!(output.successes[0].offset, 3);
}

#[test]
fn test_empty_builder_initializes() {
    // An empty builder always yields a chain; processing with no
    // stages returns the batch unchanged.
    let engine = SmartEngine::new();
    let builder: SmartModuleChainBuilder<TestGuest> = SmartModuleChainBuilder::default();
    let mut chain = builder.initialize(&engine).expect("empty chain");
    assert_eq!(chain.len(), 0);
    let mut metrics = SmartModuleChainMetrics::default();
    let input = vec![rec("untouched", 4)];
    let (output, _) = chain.process(SmartModuleInput::new(input), &mut metrics);
    assert_eq!(output.successes.len(), 1);
    assert_eq!(output.successes[0].value.as_slice(), b"untouched");
    assert_eq!(output.failures.len(), 0);
    assert_eq!(metrics.records_in, 0);
}

#[test]
fn test_join_batch_withheld_from_other_kinds() {
    // The auxiliary join batch travels only to join stages; a map
    // stage is called without it even when the input carries one.
    let mut chain = build_chain(vec![TestGuest::JoinProbeMap]);
    let mut metrics = SmartModuleChainMetrics::default();
    let input = SmartModuleInput {
        base_offset: 0,
        records: vec![rec("r", 0)],
        join_records: Some(vec![rec("aux", 50)]),
    };
    let (output, _) = chain.process(input, &mut metrics);
    assert_eq!(output.successes.len(), 1);
    assert_eq!(output.successes[0].value.as_slice(), b"no_join");
}

#[test]
fn test_join_stage() {
    let engine = SmartEngine::new();

    // A join stage without an auxiliary stream binding is a
    // configuration error.
    let mut builder = SmartModuleChainBuilder::default();
    builder.add_smart_module(SmartModuleConfig::new(), TestGuest::JoinEcho);
    assert_eq!(builder.initialize(&engine).err(), Some(EngineError::Config));

    // With a binding the stage initializes and sees the join batch.
    let mut builder = SmartModuleChainBuilder::default();
    let mut config = SmartModuleConfig::new();
    config.join_stream = Some(String::from("reference-stream"));
    builder.add_smart_module(config, TestGuest::JoinEcho);
    let mut chain = builder.initialize(&engine).expect("join chain");
    assert_eq!(chain.instances()[0].transform(), TransformKind::Join);

    let mut metrics = SmartModuleChainMetrics::default();
    let input = SmartModuleInput {
        base_offset: 0,
        records: vec![rec("left", 0), rec("also", 1)],
        join_records: Some(vec![rec("right", 100)]),
    };
    let (output, _) = chain.process(input, &mut metrics);
    assert_eq!(output.successes.len(), 2);
    assert_eq!(output.successes[0].value.as_slice(), b"left|right");
    assert_eq!(output.successes[1].value.as_slice(), b"also|right");
    assert_eq!(output.failures.len(), 0);
}

#[test]
fn test_validate() {
    let engine = SmartEngine::new();
    assert_eq!(engine.validate(&TestGuest::IdentityMap), Ok(()));
    assert_eq!(engine.validate(&TestGuest::ArraySplit), Ok(()));
    assert_eq!(
        engine.validate(&TestGuest::NoExport),
        Err(EngineError::InvalidModule)
    );
    assert_eq!(
        engine.validate(&TestGuest::DualExport),
        Err(EngineError::InvalidModule)
    );
    assert_eq!(
        engine.validate(&TestGuest::FailInstantiate),
        Err(EngineError::Compile)
    );
}

#[test]
fn test_worst_case_all_fail() {
    // Even when every record fails, process returns a complete output.
    let mut chain = build_chain(vec![TestGuest::TrapOnValue(b"bad".to_vec())]);
    let mut metrics = SmartModuleChainMetrics::default();
    let input = vec![rec("bad", 0), rec("bad", 1), rec("bad", 2)];
    let (output, _) = chain.process(SmartModuleInput::new(input), &mut metrics);
    assert_eq!(output.successes.len(), 0);
    assert_eq!(output.failures.len(), 3);
    assert_eq!(metrics.errors, 3);
}
