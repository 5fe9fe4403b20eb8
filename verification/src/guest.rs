//! The sandbox boundary.
//!
//! The execution capability that compiles and runs isolated guest
//! modules is a given of the environment, not re-implemented here; the
//! engine reaches it through the `GuestModule` trait and assumes
//! nothing about what a call returns.  Whatever comes back — a result
//! buffer, garbage bytes, or a contained trap — is classified by the
//! verified `apply_response`, whose outcome is pinned exactly by
//! `record_outcome`.

use vstd::prelude::*;
use crate::records::Record;
use crate::records::RecordModel;
use crate::records::WireRecordModel;
use crate::records::RecordFailure;
use crate::records::FailureModel;
use crate::records::models_of;
use crate::records::adopt;
use crate::errors::EngineError;
use crate::errors::SERIALIZATION_ERROR_CODE;
use crate::transform::TransformKind;
use crate::config::SmartModuleConfig;
use crate::wire::dec_output;
use crate::wire::decode_output;
use crate::wire::copy_range;
use crate::records::wire_models_of;

verus! {

/// What one guest call produced: a result buffer, or a contained trap
/// (a panic, an illegal operation, or an exhausted step budget), with
/// the runtime's code and message.
pub enum GuestResponse {
    Payload(Vec<u8>),
    Trap(u32, Vec<u8>),
}

/// Model of a guest response.
pub ghost enum ResponseModel {
    Payload(Seq<u8>),
    Trap(u32, Seq<u8>),
}

impl View for GuestResponse {
    type V = ResponseModel;

    open spec fn view(&self) -> ResponseModel {
        match self {
            GuestResponse::Payload(b) => ResponseModel::Payload(b@),
            GuestResponse::Trap(c, m) => ResponseModel::Trap(*c, m@),
        }
    }
}

/// Default memory ceiling for one guest instance, in bytes.
pub const DEFAULT_MEMORY_LIMIT: u64 = 0x1000_0000;

/// Default execution-step budget for one guest call.
pub const DEFAULT_STEP_BUDGET: u64 = 0x4000_0000;

/// The process-wide execution capability: the bounds under which guest
/// modules are instantiated and run.  A factory; created once.
pub struct SmartEngine {
    pub memory_limit: u64,
    pub step_budget: u64,
}

impl SmartEngine {
    /// A capability with the default memory ceiling and step budget.
    pub fn new() -> (r: SmartEngine)
        ensures
            r.memory_limit == DEFAULT_MEMORY_LIMIT,
            r.step_budget == DEFAULT_STEP_BUDGET,
    {
        SmartEngine { memory_limit: DEFAULT_MEMORY_LIMIT, step_budget: DEFAULT_STEP_BUDGET }
    }

    /// A capability with explicit bounds.
    pub fn with_limits(memory_limit: u64, step_budget: u64) -> (r: SmartEngine)
        ensures
            r.memory_limit == memory_limit,
            r.step_budget == step_budget,
    {
        SmartEngine { memory_limit, step_budget }
    }
}

/// One sandboxed guest module.  The environment that hosts the engine
/// supplies the implementation; the engine assumes nothing about what
/// these methods return, so every contract downstream holds for every
/// possible guest, including a defective or adversarial one.
pub trait GuestModule: Sized {
    /// Compiles and instantiates a fresh, isolated instance of this
    /// module against the capability, binding the host-provided
    /// accessors for the stage's named parameters; instances share no
    /// mutable state.
    fn instantiate(&self, engine: &SmartEngine, config: &SmartModuleConfig) -> Result<
        Self,
        EngineError,
    >;

    /// The entry-point names the instantiated module exports.
    fn exports(&self) -> Vec<String>;

    /// Runs the module's transform entry point on a serialized input
    /// batch.  A panic, trap, or exhausted step budget surfaces as
    /// `GuestResponse::Trap`, never as a host panic.
    fn invoke(&mut self, payload: &Vec<u8>) -> GuestResponse;
}

/// What a stage does with the records a guest handed back, given the
/// stage's cardinality contract.
pub ghost enum OutcomeModel {
    Accepted(Seq<RecordModel>),
    Dropped,
    Failed(FailureModel),
}

/// The outcome of one record at one stage, as a value.
pub enum RecordOutcome {
    Accepted(Vec<Record>),
    Dropped,
    Failed(RecordFailure),
}

impl View for RecordOutcome {
    type V = OutcomeModel;

    open spec fn view(&self) -> OutcomeModel {
        match self {
            RecordOutcome::Accepted(v) => OutcomeModel::Accepted(models_of(v@)),
            RecordOutcome::Dropped => OutcomeModel::Dropped,
            RecordOutcome::Failed(f) => OutcomeModel::Failed(f@),
        }
    }
}

/// The records of a decoded guest result, adopted by the host under
/// the identity of the record that produced them.
pub open spec fn adopted(ws: Seq<WireRecordModel>, offset: int) -> Seq<RecordModel> {
    ws.map_values(|w: WireRecordModel| adopt(w, offset))
}

/// A failure entry of the engine's own: a code and an empty message.
pub open spec fn engine_failure(offset: int, code: u32) -> FailureModel {
    FailureModel { offset: offset, code: code, message: Seq::empty() }
}

/// The per-kind cardinality contract, applied to an error-free guest
/// result.
pub open spec fn outcome_of_records(
    kind: TransformKind,
    r: RecordModel,
    ws: Seq<WireRecordModel>,
) -> OutcomeModel {
    match kind {
        TransformKind::ArrayMap => OutcomeModel::Accepted(adopted(ws, r.offset)),
        TransformKind::Filter => if ws.len() == 0 {
            OutcomeModel::Dropped
        } else if ws.len() == 1 {
            OutcomeModel::Accepted(seq![r])
        } else {
            OutcomeModel::Failed(engine_failure(r.offset, SERIALIZATION_ERROR_CODE))
        },
        TransformKind::FilterMap => if ws.len() == 0 {
            OutcomeModel::Dropped
        } else if ws.len() == 1 {
            OutcomeModel::Accepted(adopted(ws, r.offset))
        } else {
            OutcomeModel::Failed(engine_failure(r.offset, SERIALIZATION_ERROR_CODE))
        },
        _ => if ws.len() == 1 {
            OutcomeModel::Accepted(adopted(ws, r.offset))
        } else {
            OutcomeModel::Failed(engine_failure(r.offset, SERIALIZATION_ERROR_CODE))
        },
    }
}

/// The complete classification of one guest response for one record:
/// a trap or a malformed buffer fails the record in flight; an error
/// signal fails it with the guest's code; otherwise the cardinality
/// contract of the stage's kind decides.
pub open spec fn record_outcome(
    kind: TransformKind,
    r: RecordModel,
    resp: ResponseModel,
) -> OutcomeModel {
    match resp {
        ResponseModel::Trap(code, msg) => OutcomeModel::Failed(
            FailureModel { offset: r.offset, code: code, message: msg },
        ),
        ResponseModel::Payload(b) => match dec_output(b) {
            Option::None => OutcomeModel::Failed(
                engine_failure(r.offset, SERIALIZATION_ERROR_CODE),
            ),
            Option::Some(g) => match g.error {
                Option::Some(e) => OutcomeModel::Failed(
                    FailureModel { offset: r.offset, code: e.code, message: e.message },
                ),
                Option::None => outcome_of_records(kind, r, g.records),
            },
        },
    }
}

/// An exact copy of a record.
pub fn clone_record(rec: &Record) -> (r: Record)
    ensures
        r@ == rec@,
{
    let value = copy_range(&rec.value, 0, rec.value.len());
    proof {
        assert(rec.value@.subrange(0, rec.value@.len() as int) =~= rec.value@);
    }
    let key = match &rec.key {
        Option::None => Option::None,
        Option::Some(k) => {
            let kc = copy_range(k, 0, k.len());
            proof {
                assert(k@.subrange(0, k@.len() as int) =~= k@);
            }
            Option::Some(kc)
        },
    };
    Record { key, value, timestamp: rec.timestamp, offset: rec.offset }
}

fn adopt_records(ws: Vec<crate::records::WireRecord>, offset: i64) -> (r: Vec<Record>)
    ensures
        models_of(r@) == adopted(wire_models_of(ws@), offset as int),
{
    let ghost orig = wire_models_of(ws@);
    let mut rest = ws;
    let mut out: Vec<Record> = Vec::new();
    proof {
        assert(models_of(out@) + adopted(wire_models_of(rest@), offset as int) =~= adopted(
            orig,
            offset as int,
        ));
    }
    while rest.len() > 0
        invariant
            models_of(out@) + adopted(wire_models_of(rest@), offset as int) =~= adopted(
                orig,
                offset as int,
            ),
        decreases rest@.len(),
    {
        let w = rest.remove(0);
        let ghost before_out = out@;
        let ghost before_rest_models = wire_models_of(rest@).insert(0, w@);
        out.push(Record { key: w.key, value: w.value, timestamp: w.timestamp, offset });
        proof {
            assert(models_of(out@) =~= models_of(before_out).push(
                adopt(w@, offset as int),
            ));
            assert(models_of(out@) + adopted(wire_models_of(rest@), offset as int) =~= models_of(
                before_out,
            ) + adopted(before_rest_models, offset as int));
        }
    }
    proof {
        assert(adopted(wire_models_of(rest@), offset as int) =~= Seq::<RecordModel>::empty());
        assert(models_of(out@) + Seq::<RecordModel>::empty() =~= models_of(out@));
    }
    out
}

/// Classifies one guest response for the record in flight.  The result
/// is exactly `record_outcome`; in particular a trap or an undecodable
/// buffer never escapes as an error of `process`.
pub fn apply_response(kind: TransformKind, rec: &Record, resp: GuestResponse) -> (r: RecordOutcome)
    ensures
        r@ == record_outcome(kind, rec@, resp@),
{
    match resp {
        GuestResponse::Trap(code, msg) => RecordOutcome::Failed(
            RecordFailure { offset: rec.offset, code, message: msg },
        ),
        GuestResponse::Payload(b) => {
            match decode_output(&b) {
                Result::Err(_) => RecordOutcome::Failed(
                    RecordFailure {
                        offset: rec.offset,
                        code: SERIALIZATION_ERROR_CODE,
                        message: Vec::new(),
                    },
                ),
                Result::Ok(g) => {
                    match g.error {
                        Option::Some(e) => RecordOutcome::Failed(
                            RecordFailure { offset: rec.offset, code: e.code, message: e.message },
                        ),
                        Option::None => {
                            match kind {
                                TransformKind::ArrayMap => RecordOutcome::Accepted(
                                    adopt_records(g.records, rec.offset),
                                ),
                                TransformKind::Filter => {
                                    if g.records.len() == 0 {
                                        RecordOutcome::Dropped
                                    } else if g.records.len() == 1 {
                                        let mut passed: Vec<Record> = Vec::new();
                                        passed.push(clone_record(rec));
                                        proof {
                                            assert(models_of(passed@) =~= seq![rec@]);
                                        }
                                        RecordOutcome::Accepted(passed)
                                    } else {
                                        RecordOutcome::Failed(
                                            RecordFailure {
                                                offset: rec.offset,
                                                code: SERIALIZATION_ERROR_CODE,
                                                message: Vec::new(),
                                            },
                                        )
                                    }
                                },
                                TransformKind::FilterMap => {
                                    if g.records.len() == 0 {
                                        RecordOutcome::Dropped
                                    } else if g.records.len() == 1 {
                                        RecordOutcome::Accepted(
                                            adopt_records(g.records, rec.offset),
                                        )
                                    } else {
                                        RecordOutcome::Failed(
                                            RecordFailure {
                                                offset: rec.offset,
                                                code: SERIALIZATION_ERROR_CODE,
                                                message: Vec::new(),
                                            },
                                        )
                                    }
                                },
                                _ => {
                                    if g.records.len() == 1 {
                                        RecordOutcome::Accepted(
                                            adopt_records(g.records, rec.offset),
                                        )
                                    } else {
                                        RecordOutcome::Failed(
                                            RecordFailure {
                                                offset: rec.offset,
                                                code: SERIALIZATION_ERROR_CODE,
                                                message: Vec::new(),
                                            },
                                        )
                                    }
                                },
                            }
                        },
                    }
                },
            }
        },
    }
}

} // verus!
