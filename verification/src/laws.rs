//! The engine's laws, proved over the execution model.
//!
//! Each proof function here states a property of `stage_eval` /
//! `chain_eval`, the model that `process` is proved to return exactly;
//! together with `process`'s own contract they pin the observable
//! behaviour of a chain for every guest, including a defective one.

use vstd::prelude::*;
use crate::records::RecordModel;
use crate::records::FailureModel;
use crate::records::WireRecordModel;
use crate::records::wire_record_wf;
use crate::records::wire_of;
use crate::transform::TransformKind;
use crate::guest::ResponseModel;
use crate::guest::OutcomeModel;
use crate::guest::record_outcome;
use crate::guest::adopted;
use crate::wire::enc_output;
use crate::wire::GuestOutputModel;
use crate::wire::lemma_output_round_trip;
use crate::chain::StageEvalModel;
use crate::chain::stage_eval;
use crate::chain::chain_eval;
use crate::chain::chain_log_wf;

verus! {

/// The response of a guest that maps every record to itself: a result
/// buffer holding exactly the record it was given.
pub open spec fn identity_response(r: RecordModel) -> ResponseModel {
    ResponseModel::Payload(
        enc_output(GuestOutputModel { records: seq![wire_of(r)], error: Option::None }),
    )
}

/// An identity response is classified as accepting the record
/// unchanged.
pub proof fn lemma_identity_outcome(r: RecordModel)
    requires
        wire_record_wf(wire_of(r)),
    ensures
        record_outcome(TransformKind::RecordMap, r, identity_response(r))
            == OutcomeModel::Accepted(seq![r]),
{
    let g = GuestOutputModel { records: seq![wire_of(r)], error: Option::None };
    lemma_output_round_trip(g);
    assert(adopted(g.records, r.offset) =~= seq![r]);
}

/// A map stage whose guest answers every record with itself passes the
/// batch through unchanged: same records, same order, no failures,
/// nothing dropped.
pub proof fn lemma_identity_stage(inputs: Seq<RecordModel>, resps: Seq<ResponseModel>)
    requires
        resps.len() == inputs.len(),
        forall|i: int| 0 <= i < inputs.len() ==> wire_record_wf(wire_of(#[trigger] inputs[i])),
        forall|i: int| 0 <= i < inputs.len() ==> resps[i] == identity_response(inputs[i]),
    ensures
        stage_eval(TransformKind::RecordMap, inputs, resps) == (StageEvalModel {
            successes: inputs,
            failures: Seq::<FailureModel>::empty(),
            dropped: 0,
        }),
    decreases inputs.len(),
{
    if inputs.len() == 0 {
        assert(inputs =~= Seq::<RecordModel>::empty());
        assert(stage_eval(TransformKind::RecordMap, inputs, resps) == (StageEvalModel {
            successes: inputs,
            failures: Seq::<FailureModel>::empty(),
            dropped: 0,
        }));
    } else {
        lemma_identity_stage(inputs.drop_first(), resps.drop_first());
        lemma_identity_outcome(inputs[0]);
        assert(seq![inputs[0]] + inputs.drop_first() =~= inputs);
    }
}

/// The responses of an identity guest for a whole batch.
pub open spec fn identity_responses(inputs: Seq<RecordModel>) -> Seq<ResponseModel> {
    inputs.map_values(|r: RecordModel| identity_response(r))
}

/// Identity law: a chain of any number of map stages, each answered by
/// an identity guest, returns exactly its input — same values, same
/// order — with no failures and nothing dropped.
pub proof fn lemma_identity_chain(
    kinds: Seq<TransformKind>,
    inputs: Seq<RecordModel>,
    log: Seq<Seq<ResponseModel>>,
)
    requires
        forall|s: int| 0 <= s < kinds.len() ==> kinds[s] == TransformKind::RecordMap,
        forall|i: int| 0 <= i < inputs.len() ==> wire_record_wf(wire_of(#[trigger] inputs[i])),
        log.len() == kinds.len(),
        forall|s: int| 0 <= s < log.len() ==> log[s] == identity_responses(inputs),
    ensures
        chain_log_wf(kinds, inputs, log),
        chain_eval(kinds, inputs, log).successes == inputs,
        chain_eval(kinds, inputs, log).failures.len() == 0,
        chain_eval(kinds, inputs, log).dropped == 0,
    decreases kinds.len(),
{
    if kinds.len() == 0 {
    } else {
        assert(log[0] == identity_responses(inputs));
        assert(identity_responses(inputs).len() == inputs.len());
        assert(forall|i: int|
            0 <= i < inputs.len() ==> identity_responses(inputs)[i] == identity_response(
                inputs[i],
            ));
        lemma_identity_stage(inputs, log[0]);
        let s0 = stage_eval(kinds[0], inputs, log[0]);
        assert(s0.successes == inputs);
        assert(forall|s: int|
            0 <= s < log.drop_first().len() ==> log.drop_first()[s] == identity_responses(
                inputs,
            ));
        lemma_identity_chain(kinds.drop_first(), inputs, log.drop_first());
        assert(s0.failures + chain_eval(
            kinds.drop_first(),
            inputs,
            log.drop_first(),
        ).failures =~= Seq::<FailureModel>::empty());
    }
}

/// An array-map guest that answers with a sequence of elements has all
/// of them accepted, in source element order, each under the identity
/// of the input record.
pub proof fn lemma_array_map_expansion(r: RecordModel, ws: Seq<WireRecordModel>)
    requires
        ws.len() < 0x1_0000_0000_0000_0000,
        forall|i: int| 0 <= i < ws.len() ==> wire_record_wf(#[trigger] ws[i]),
    ensures
        record_outcome(
            TransformKind::ArrayMap,
            r,
            ResponseModel::Payload(
                enc_output(GuestOutputModel { records: ws, error: Option::None }),
            ),
        ) == OutcomeModel::Accepted(adopted(ws, r.offset)),
{
    lemma_output_round_trip(GuestOutputModel { records: ws, error: Option::None });
}

/// How many records of a batch carry the given offset.
pub open spec fn offset_count(rs: Seq<RecordModel>, o: int) -> int
    decreases rs.len(),
{
    if rs.len() == 0 {
        0
    } else {
        (if rs[0].offset == o {
            1int
        } else {
            0int
        }) + offset_count(rs.drop_first(), o)
    }
}

/// How many failure entries carry the given offset.
pub open spec fn failure_offset_count(fs: Seq<FailureModel>, o: int) -> int
    decreases fs.len(),
{
    if fs.len() == 0 {
        0
    } else {
        (if fs[0].offset == o {
            1int
        } else {
            0int
        }) + failure_offset_count(fs.drop_first(), o)
    }
}

pub proof fn lemma_offset_count_concat(a: Seq<RecordModel>, b: Seq<RecordModel>, o: int)
    ensures
        offset_count(a + b, o) == offset_count(a, o) + offset_count(b, o),
    decreases a.len(),
{
    if a.len() == 0 {
        assert(a + b =~= b);
    } else {
        lemma_offset_count_concat(a.drop_first(), b, o);
        assert((a + b).drop_first() =~= a.drop_first() + b);
        assert((a + b)[0] == a[0]);
    }
}

pub proof fn lemma_failure_offset_count_concat(a: Seq<FailureModel>, b: Seq<FailureModel>, o: int)
    ensures
        failure_offset_count(a + b, o) == failure_offset_count(a, o) + failure_offset_count(b, o),
    decreases a.len(),
{
    if a.len() == 0 {
        assert(a + b =~= b);
    } else {
        lemma_failure_offset_count_concat(a.drop_first(), b, o);
        assert((a + b).drop_first() =~= a.drop_first() + b);
        assert((a + b)[0] == a[0]);
    }
}

pub proof fn lemma_offset_count_nonneg(rs: Seq<RecordModel>, o: int)
    ensures
        offset_count(rs, o) >= 0,
    decreases rs.len(),
{
    if rs.len() > 0 {
        lemma_offset_count_nonneg(rs.drop_first(), o);
    }
}

pub proof fn lemma_failure_offset_count_nonneg(fs: Seq<FailureModel>, o: int)
    ensures
        failure_offset_count(fs, o) >= 0,
    decreases fs.len(),
{
    if fs.len() > 0 {
        lemma_failure_offset_count_nonneg(fs.drop_first(), o);
    }
}

/// Per-offset containment at one stage (any kind but array-map, whose
/// expansion deliberately reuses the input's identity): the successes
/// and failures carrying an offset never outnumber the inputs that
/// carried it, and each input yields at most one of the two.
pub proof fn lemma_stage_containment(
    kind: TransformKind,
    inputs: Seq<RecordModel>,
    resps: Seq<ResponseModel>,
    o: int,
)
    requires
        resps.len() == inputs.len(),
        kind != TransformKind::ArrayMap,
    ensures
        ({
            let ev = stage_eval(kind, inputs, resps);
            offset_count(ev.successes, o) + failure_offset_count(ev.failures, o) <= offset_count(
                inputs,
                o,
            )
        }),
    decreases inputs.len(),
{
    if inputs.len() == 0 {
    } else {
        lemma_stage_containment(kind, inputs.drop_first(), resps.drop_first(), o);
        let rest = stage_eval(kind, inputs.drop_first(), resps.drop_first());
        match record_outcome(kind, inputs[0], resps[0]) {
            OutcomeModel::Accepted(rs) => {
                assert(rs.len() == 1 && rs[0].offset == inputs[0].offset);
                lemma_offset_count_concat(rs, rest.successes, o);
                assert(rs.drop_first() =~= Seq::<RecordModel>::empty());
                assert(rs.drop_first() == Seq::<RecordModel>::empty());
                assert(offset_count(Seq::<RecordModel>::empty(), o) == 0);
                assert(offset_count(rs, o) == (if inputs[0].offset == o {
                    1int
                } else {
                    0int
                }));
            },
            OutcomeModel::Dropped => {},
            OutcomeModel::Failed(f) => {
                assert(f.offset == inputs[0].offset);
                lemma_failure_offset_count_concat(seq![f], rest.failures, o);
                assert(seq![f].drop_first() =~= Seq::<FailureModel>::empty());
                assert(seq![f].drop_first() == Seq::<FailureModel>::empty());
                assert(failure_offset_count(Seq::<FailureModel>::empty(), o) == 0);
                assert(failure_offset_count(seq![f], o) == (if f.offset == o {
                    1int
                } else {
                    0int
                }));
            },
        }
    }
}

/// Per-offset containment across a whole chain without array-map
/// stages.
pub proof fn lemma_chain_containment(
    kinds: Seq<TransformKind>,
    inputs: Seq<RecordModel>,
    log: Seq<Seq<ResponseModel>>,
    o: int,
)
    requires
        chain_log_wf(kinds, inputs, log),
        forall|s: int| 0 <= s < kinds.len() ==> kinds[s] != TransformKind::ArrayMap,
    ensures
        ({
            let ev = chain_eval(kinds, inputs, log);
            offset_count(ev.successes, o) + failure_offset_count(ev.failures, o) <= offset_count(
                inputs,
                o,
            )
        }),
    decreases kinds.len(),
{
    if kinds.len() == 0 {
        lemma_offset_count_nonneg(inputs, o);
    } else {
        let s0 = stage_eval(kinds[0], inputs, log[0]);
        lemma_stage_containment(kinds[0], inputs, log[0], o);
        lemma_chain_containment(kinds.drop_first(), s0.successes, log.drop_first(), o);
        let rest = chain_eval(kinds.drop_first(), s0.successes, log.drop_first());
        lemma_failure_offset_count_concat(s0.failures, rest.failures, o);
        lemma_failure_offset_count_nonneg(s0.failures, o);
        lemma_failure_offset_count_nonneg(rest.failures, o);
        lemma_offset_count_nonneg(rest.successes, o);
    }
}

/// Failure containment law: in a chain without array-map stages, fed a
/// batch whose offsets are pairwise distinct, a record that fails does
/// so exactly once — its identity appears at most once among the
/// failures, and once it has failed it never reaches the final output.
/// (That it is never presented to a later stage is the definition of
/// `chain_eval`: each stage's input is exactly the previous stage's
/// successes.)
pub proof fn lemma_failure_terminal(
    kinds: Seq<TransformKind>,
    inputs: Seq<RecordModel>,
    log: Seq<Seq<ResponseModel>>,
    o: int,
)
    requires
        chain_log_wf(kinds, inputs, log),
        forall|s: int| 0 <= s < kinds.len() ==> kinds[s] != TransformKind::ArrayMap,
        offset_count(inputs, o) <= 1,
    ensures
        failure_offset_count(chain_eval(kinds, inputs, log).failures, o) <= 1,
        failure_offset_count(chain_eval(kinds, inputs, log).failures, o) == 1 ==> offset_count(
            chain_eval(kinds, inputs, log).successes,
            o,
        ) == 0,
{
    lemma_chain_containment(kinds, inputs, log, o);
    lemma_offset_count_nonneg(chain_eval(kinds, inputs, log).successes, o);
    lemma_failure_offset_count_nonneg(chain_eval(kinds, inputs, log).failures, o);
}

/// Conservation at one stage: for every kind except array-map, each
/// input record ends in exactly one of the three bins — passed on,
/// dropped, or failed — so the counts add up to the batch size; and
/// only the filtering kinds ever drop a record, so a dropped record is
/// never also reported as a failure.
pub proof fn lemma_stage_conservation(
    kind: TransformKind,
    inputs: Seq<RecordModel>,
    resps: Seq<ResponseModel>,
)
    requires
        resps.len() == inputs.len(),
        kind != TransformKind::ArrayMap,
    ensures
        ({
            let ev = stage_eval(kind, inputs, resps);
            &&& ev.successes.len() + ev.failures.len() + ev.dropped == inputs.len()
            &&& ev.dropped >= 0
            &&& ((kind == TransformKind::RecordMap || kind == TransformKind::Aggregate || kind
                == TransformKind::Join) ==> ev.dropped == 0)
        }),
    decreases inputs.len(),
{
    if inputs.len() == 0 {
    } else {
        lemma_stage_conservation(kind, inputs.drop_first(), resps.drop_first());
        match record_outcome(kind, inputs[0], resps[0]) {
            OutcomeModel::Accepted(rs) => {
                assert(rs.len() == 1);
            },
            OutcomeModel::Dropped => {},
            OutcomeModel::Failed(_) => {},
        }
    }
}

/// For every kind, an array-map stage included, each input record
/// yields at most one failure-or-drop, however many records the stage
/// emits.
pub proof fn lemma_stage_accounting(
    kind: TransformKind,
    inputs: Seq<RecordModel>,
    resps: Seq<ResponseModel>,
)
    requires
        resps.len() == inputs.len(),
    ensures
        ({
            let ev = stage_eval(kind, inputs, resps);
            &&& ev.failures.len() + ev.dropped <= inputs.len()
            &&& ev.dropped >= 0
        }),
    decreases inputs.len(),
{
    if inputs.len() > 0 {
        lemma_stage_accounting(kind, inputs.drop_first(), resps.drop_first());
    }
}

/// Conservation across a whole chain without array-map stages: the
/// final successes, all failures, and everything dropped account for
/// the whole input batch.
pub proof fn lemma_chain_conservation(
    kinds: Seq<TransformKind>,
    inputs: Seq<RecordModel>,
    log: Seq<Seq<ResponseModel>>,
)
    requires
        chain_log_wf(kinds, inputs, log),
        forall|s: int| 0 <= s < kinds.len() ==> kinds[s] != TransformKind::ArrayMap,
    ensures
        ({
            let ev = chain_eval(kinds, inputs, log);
            &&& ev.successes.len() + ev.failures.len() + ev.dropped == inputs.len()
            &&& ev.dropped >= 0
        }),
    decreases kinds.len(),
{
    if kinds.len() == 0 {
    } else {
        let s0 = stage_eval(kinds[0], inputs, log[0]);
        lemma_stage_conservation(kinds[0], inputs, log[0]);
        lemma_chain_conservation(kinds.drop_first(), s0.successes, log.drop_first());
    }
}

} // verus!
