//! Records, batches, and their mathematical models.
//!
//! A `Record` is the unit that flows through a chain: an optional key,
//! an opaque value, a timestamp, and the originating offset that serves
//! as the record's identity in failure reports.  A `WireRecord` is the
//! key/value/timestamp triple that crosses the host/guest boundary; the
//! offset stays on the host side and is re-attached to every record a
//! guest hands back.

use vstd::prelude::*;

verus! {

/// Model of a host-side record.
pub ghost struct RecordModel {
    pub key: Option<Seq<u8>>,
    pub value: Seq<u8>,
    pub timestamp: int,
    pub offset: int,
}

/// Model of a record as it appears on the wire (no offset).
pub ghost struct WireRecordModel {
    pub key: Option<Seq<u8>>,
    pub value: Seq<u8>,
    pub timestamp: int,
}

/// Model of one failure entry: the identity of the record that failed,
/// an error code, and a message.
pub ghost struct FailureModel {
    pub offset: int,
    pub code: u32,
    pub message: Seq<u8>,
}

/// A record processed by a chain.
pub struct Record {
    pub key: Option<Vec<u8>>,
    pub value: Vec<u8>,
    pub timestamp: i64,
    pub offset: i64,
}

/// A record as carried by the wire codec.
pub struct WireRecord {
    pub key: Option<Vec<u8>>,
    pub value: Vec<u8>,
    pub timestamp: i64,
}

/// One failure produced while a batch flowed through a chain.
pub struct RecordFailure {
    pub offset: i64,
    pub code: u32,
    pub message: Vec<u8>,
}

/// A batch handed to `process`: a base offset, the records, and an
/// optional auxiliary batch that join stages read.
pub struct SmartModuleInput {
    pub base_offset: i64,
    pub records: Vec<Record>,
    pub join_records: Option<Vec<Record>>,
}

/// The complete result of one `process` call.
pub struct SmartModuleOutput {
    pub successes: Vec<Record>,
    pub failures: Vec<RecordFailure>,
}

pub open spec fn key_view(k: Option<Vec<u8>>) -> Option<Seq<u8>> {
    match k {
        Option::Some(b) => Option::Some(b@),
        Option::None => Option::None,
    }
}

impl View for Record {
    type V = RecordModel;

    open spec fn view(&self) -> RecordModel {
        RecordModel {
            key: key_view(self.key),
            value: self.value@,
            timestamp: self.timestamp as int,
            offset: self.offset as int,
        }
    }
}

impl View for WireRecord {
    type V = WireRecordModel;

    open spec fn view(&self) -> WireRecordModel {
        WireRecordModel {
            key: key_view(self.key),
            value: self.value@,
            timestamp: self.timestamp as int,
        }
    }
}

impl View for RecordFailure {
    type V = FailureModel;

    open spec fn view(&self) -> FailureModel {
        FailureModel { offset: self.offset as int, code: self.code, message: self.message@ }
    }
}

/// The models of a sequence of records.
pub open spec fn models_of(s: Seq<Record>) -> Seq<RecordModel> {
    s.map_values(|r: Record| r@)
}

/// The models of a sequence of wire records.
pub open spec fn wire_models_of(s: Seq<WireRecord>) -> Seq<WireRecordModel> {
    s.map_values(|r: WireRecord| r@)
}

/// The models of a sequence of failures.
pub open spec fn failure_models_of(s: Seq<RecordFailure>) -> Seq<FailureModel> {
    s.map_values(|f: RecordFailure| f@)
}

/// What a host record looks like on the wire: the offset is dropped.
pub open spec fn wire_of(r: RecordModel) -> WireRecordModel {
    WireRecordModel { key: r.key, value: r.value, timestamp: r.timestamp }
}

/// A wire record adopted by the host under a given identity.
pub open spec fn adopt(w: WireRecordModel, offset: int) -> RecordModel {
    RecordModel { key: w.key, value: w.value, timestamp: w.timestamp, offset: offset }
}

/// Sum of the value lengths of a batch, the quantity the byte metrics count.
pub open spec fn batch_bytes(rs: Seq<RecordModel>) -> int
    decreases rs.len(),
{
    if rs.len() == 0 {
        0
    } else {
        rs[0].value.len() + batch_bytes(rs.drop_first())
    }
}

/// A wire record whose fields fit the wire's integer widths: byte-string
/// lengths below 2^64 and a timestamp in the i64 range.  Every record
/// built from executable values satisfies this.
pub open spec fn wire_record_wf(w: WireRecordModel) -> bool {
    &&& w.value.len() < 0x1_0000_0000_0000_0000
    &&& (match w.key {
        Option::Some(k) => k.len() < 0x1_0000_0000_0000_0000,
        Option::None => true,
    })
    &&& -0x8000_0000_0000_0000 <= w.timestamp < 0x8000_0000_0000_0000
}

impl Record {
    /// A keyless record with the given value, timestamp zero, offset zero.
    pub fn new(value: Vec<u8>) -> (r: Record)
        ensures
            r@ == (RecordModel {
                key: Option::None,
                value: value@,
                timestamp: 0,
                offset: 0,
            }),
    {
        Record { key: Option::None, value, timestamp: 0, offset: 0 }
    }

    /// A record with every field given.
    pub fn new_full(key: Option<Vec<u8>>, value: Vec<u8>, timestamp: i64, offset: i64) -> (r:
        Record)
        ensures
            r@ == (RecordModel {
                key: key_view(key),
                value: value@,
                timestamp: timestamp as int,
                offset: offset as int,
            }),
    {
        Record { key, value, timestamp, offset }
    }
}

impl SmartModuleInput {
    /// A batch with base offset zero and no auxiliary join batch.
    pub fn new(records: Vec<Record>) -> (r: SmartModuleInput)
        ensures
            r.base_offset == 0,
            r.records == records,
            r.join_records is None,
    {
        SmartModuleInput { base_offset: 0, records, join_records: Option::None }
    }
}

/// Every record of an executable batch is well formed on the wire.
pub proof fn lemma_exec_records_wf(s: Seq<Record>)
    ensures
        forall|i: int|
            0 <= i < s.len() ==> wire_record_wf(#[trigger] wire_of(models_of(s)[i])),
{
    assert forall|i: int|
        0 <= i < s.len() implies wire_record_wf(#[trigger] wire_of(models_of(s)[i])) by {
        let r = s[i];
        assert(models_of(s)[i] == r@);
        vstd::std_specs::vec::axiom_spec_len(&r.value);
        assert(r.value@.len() <= usize::MAX);
        match r.key {
            Option::Some(k) => {
                vstd::std_specs::vec::axiom_spec_len(&k);
                assert(k@.len() <= usize::MAX);
            },
            Option::None => {},
        }
    }
}

} // verus!
