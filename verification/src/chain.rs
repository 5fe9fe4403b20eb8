//! Chains: building, and streaming batches through the stages.
//!
//! A builder accumulates (configuration, module) pairs; `initialize`
//! compiles and probes every stage in order and returns either a fully
//! usable chain or an error — never a partial chain.  `process` drives
//! a batch through the stages: the successes of stage *i* are exactly
//! the input of stage *i + 1*, every failure is contained and reported
//! once, and the metrics grow monotonically.  The whole run is pinned
//! by the `stage_eval` / `chain_eval` model over the sequence of guest
//! responses, which `process` returns as ghost data.

use vstd::prelude::*;
use crate::records::Record;
use crate::records::RecordModel;
use crate::records::RecordFailure;
use crate::records::FailureModel;
use crate::records::SmartModuleInput;
use crate::records::SmartModuleOutput;
use crate::records::models_of;
use crate::records::failure_models_of;
use crate::records::batch_bytes;
use crate::errors::EngineError;
use crate::transform::TransformKind;
use crate::transform::select_transform;
use crate::transform::select_spec;
use crate::transform::names_of;
use crate::config::SmartModuleConfig;
use crate::metrics::SmartModuleChainMetrics;
use crate::metrics::capped;
use crate::metrics::sat_add;
use crate::metrics::lemma_capped_add;
use crate::guest::GuestModule;
use crate::guest::SmartEngine;
use crate::guest::ResponseModel;
use crate::guest::RecordOutcome;
use crate::guest::OutcomeModel;
use crate::guest::record_outcome;
use crate::guest::apply_response;
use crate::guest::clone_record;
use crate::wire::encode_input;

verus! {

/// One loaded, instantiated stage: its probed transform kind and the
/// isolated guest instance, owned exclusively by its chain.
pub struct SmartModuleInstance<M> {
    pub kind: TransformKind,
    pub guest: M,
}

impl<M> SmartModuleInstance<M> {
    /// The transform kind probed at initialization.
    pub fn transform(&self) -> (r: TransformKind)
        ensures
            r == self.kind,
    {
        self.kind
    }
}

/// The transform kinds of a sequence of instances, in stage order.
pub open spec fn kinds_of<M>(instances: Seq<SmartModuleInstance<M>>) -> Seq<TransformKind> {
    instances.map_values(|i: SmartModuleInstance<M>| i.kind)
}

/// What one stage makes of a batch, given the guest's responses: the
/// accepted records in order, the failures in detection order, and how
/// many records were dropped by a filtering kind.
pub ghost struct StageEvalModel {
    pub successes: Seq<RecordModel>,
    pub failures: Seq<FailureModel>,
    pub dropped: int,
}

/// Folds `record_outcome` over a batch, front to back.
pub open spec fn stage_eval(
    kind: TransformKind,
    inputs: Seq<RecordModel>,
    resps: Seq<ResponseModel>,
) -> StageEvalModel
    decreases inputs.len(),
{
    if inputs.len() == 0 {
        StageEvalModel { successes: Seq::empty(), failures: Seq::empty(), dropped: 0 }
    } else {
        let rest = stage_eval(kind, inputs.drop_first(), resps.drop_first());
        match record_outcome(kind, inputs[0], resps[0]) {
            OutcomeModel::Accepted(rs) => StageEvalModel {
                successes: rs + rest.successes,
                failures: rest.failures,
                dropped: rest.dropped,
            },
            OutcomeModel::Dropped => StageEvalModel {
                successes: rest.successes,
                failures: rest.failures,
                dropped: rest.dropped + 1,
            },
            OutcomeModel::Failed(f) => StageEvalModel {
                successes: rest.successes,
                failures: seq![f] + rest.failures,
                dropped: rest.dropped,
            },
        }
    }
}

/// How one more record at the end of a batch extends the stage's
/// evaluation.
pub proof fn lemma_stage_eval_snoc(
    kind: TransformKind,
    inputs: Seq<RecordModel>,
    resps: Seq<ResponseModel>,
    r: RecordModel,
    resp: ResponseModel,
)
    requires
        inputs.len() == resps.len(),
    ensures
        ({
            let base = stage_eval(kind, inputs, resps);
            let full = stage_eval(kind, inputs.push(r), resps.push(resp));
            match record_outcome(kind, r, resp) {
                OutcomeModel::Accepted(rs) => full.successes == base.successes + rs
                    && full.failures == base.failures && full.dropped == base.dropped,
                OutcomeModel::Dropped => full.successes == base.successes && full.failures
                    == base.failures && full.dropped == base.dropped + 1,
                OutcomeModel::Failed(f) => full.successes == base.successes && full.failures
                    == base.failures.push(f) && full.dropped == base.dropped,
            }
        }),
    decreases inputs.len(),
{
    let pi = inputs.push(r);
    let pr = resps.push(resp);
    if inputs.len() == 0 {
        assert(pi.drop_first() =~= Seq::<RecordModel>::empty());
        assert(pr.drop_first() =~= Seq::<ResponseModel>::empty());
        assert(pi.drop_first() == Seq::<RecordModel>::empty());
        assert(pr.drop_first() == Seq::<ResponseModel>::empty());
        assert(pi[0] == r);
        assert(pr[0] == resp);
        assert(stage_eval(kind, Seq::<RecordModel>::empty(), Seq::<ResponseModel>::empty())
            == (StageEvalModel {
            successes: Seq::<RecordModel>::empty(),
            failures: Seq::<FailureModel>::empty(),
            dropped: 0,
        }));
        match record_outcome(kind, r, resp) {
            OutcomeModel::Accepted(rs) => {
                assert(rs + Seq::<RecordModel>::empty() =~= Seq::<RecordModel>::empty() + rs);
            },
            OutcomeModel::Dropped => {},
            OutcomeModel::Failed(f) => {
                assert(seq![f] + Seq::<FailureModel>::empty() =~= Seq::<
                    FailureModel,
                >::empty().push(f));
            },
        }
    } else {
        lemma_stage_eval_snoc(kind, inputs.drop_first(), resps.drop_first(), r, resp);
        assert(pi.drop_first() =~= inputs.drop_first().push(r));
        assert(pr.drop_first() =~= resps.drop_first().push(resp));
        assert(pi.drop_first() == inputs.drop_first().push(r));
        assert(pr.drop_first() == resps.drop_first().push(resp));
        assert(pi[0] == inputs[0]);
        assert(pr[0] == resps[0]);
        let br = stage_eval(kind, inputs.drop_first(), resps.drop_first());
        match record_outcome(kind, r, resp) {
            OutcomeModel::Accepted(rs) => {
                match record_outcome(kind, inputs[0], resps[0]) {
                    OutcomeModel::Accepted(hs) => {
                        assert(hs + (br.successes + rs) =~= (hs + br.successes) + rs);
                    },
                    _ => {},
                }
            },
            OutcomeModel::Dropped => {},
            OutcomeModel::Failed(g) => {
                match record_outcome(kind, inputs[0], resps[0]) {
                    OutcomeModel::Failed(f) => {
                        assert(seq![f] + br.failures.push(g) =~= (seq![f] + br.failures).push(
                            g,
                        ));
                    },
                    _ => {},
                }
            },
        }
    }
}

pub proof fn lemma_batch_bytes_nonneg(rs: Seq<RecordModel>)
    ensures
        batch_bytes(rs) >= 0,
    decreases rs.len(),
{
    if rs.len() > 0 {
        lemma_batch_bytes_nonneg(rs.drop_first());
    }
}

pub proof fn lemma_batch_bytes_snoc(rs: Seq<RecordModel>, r: RecordModel)
    ensures
        batch_bytes(rs.push(r)) == batch_bytes(rs) + r.value.len(),
    decreases rs.len(),
{
    let p = rs.push(r);
    if rs.len() == 0 {
        assert(p.drop_first() =~= Seq::<RecordModel>::empty());
        assert(p.drop_first() == Seq::<RecordModel>::empty());
        assert(p[0] == r);
        assert(batch_bytes(Seq::<RecordModel>::empty()) == 0);
    } else {
        lemma_batch_bytes_snoc(rs.drop_first(), r);
        assert(p.drop_first() =~= rs.drop_first().push(r));
        assert(p.drop_first() == rs.drop_first().push(r));
        assert(p[0] == rs[0]);
    }
}

/// The byte volume of a batch, saturating at the counter width.
pub fn batch_bytes_of(records: &Vec<Record>) -> (r: u64)
    ensures
        r as int == capped(batch_bytes(models_of(records@))),
{
    let mut acc: u64 = 0;
    let mut i: usize = 0;
    proof {
        assert(models_of(records@).take(0) =~= Seq::<RecordModel>::empty());
    }
    while i < records.len()
        invariant
            i <= records@.len(),
            acc as int == capped(batch_bytes(models_of(records@).take(i as int))),
        decreases records@.len() - i,
    {
        let d = records[i].value.len() as u64;
        proof {
            let ms = models_of(records@);
            lemma_batch_bytes_snoc(ms.take(i as int), ms[i as int]);
            assert(ms.take(i + 1) =~= ms.take(i as int).push(ms[i as int]));
            lemma_batch_bytes_nonneg(ms.take(i as int));
            lemma_capped_add(batch_bytes(ms.take(i as int)), ms[i as int].value.len() as int);
            assert(ms[i as int] == records@[i as int]@);
        }
        acc = sat_add(acc, d);
        i = i + 1;
    }
    proof {
        assert(models_of(records@).take(records@.len() as int) =~= models_of(records@));
    }
    acc
}

impl<M: GuestModule> SmartModuleInstance<M> {
    /// Streams one batch through this stage: serializes each record,
    /// invokes the guest once per record, and classifies whatever came
    /// back.  The auxiliary join batch travels only to a join stage's
    /// guest; every other kind is called without it.  The result is
    /// exactly `stage_eval` of the responses the guest gave, whatever
    /// they were.
    pub fn run_stage(&mut self, base_offset: i64, inputs: &Vec<Record>, join: &Option<
        Vec<Record>,
    >) -> (r: (Vec<Record>, Vec<RecordFailure>, usize, Ghost<Seq<ResponseModel>>))
        ensures
            final(self).kind == old(self).kind,
            r.3@.len() == inputs@.len(),
            ({
                let ev = stage_eval(old(self).kind, models_of(inputs@), r.3@);
                &&& models_of(r.0@) == ev.successes
                &&& failure_models_of(r.1@) == ev.failures
                &&& r.2 as int == ev.dropped
            }),
    {
        let kind = self.kind;
        let no_join: Option<Vec<Record>> = Option::None;
        let mut succ: Vec<Record> = Vec::new();
        let mut fails: Vec<RecordFailure> = Vec::new();
        let mut dropped: usize = 0;
        let ghost mut log: Seq<ResponseModel> = Seq::empty();
        let mut i: usize = 0;
        proof {
            assert(models_of(inputs@).take(0) =~= Seq::<RecordModel>::empty());
            assert(models_of(succ@) =~= Seq::<RecordModel>::empty());
            assert(failure_models_of(fails@) =~= Seq::<FailureModel>::empty());
        }
        while i < inputs.len()
            invariant
                i <= inputs@.len(),
                self.kind == kind,
                log.len() == i,
                dropped <= i,
                ({
                    let ev = stage_eval(kind, models_of(inputs@).take(i as int), log);
                    &&& models_of(succ@) == ev.successes
                    &&& failure_models_of(fails@) == ev.failures
                    &&& dropped as int == ev.dropped
                }),
            decreases inputs@.len() - i,
        {
            let mut one: Vec<Record> = Vec::new();
            one.push(clone_record(&inputs[i]));
            let payload = match kind {
                TransformKind::Join => encode_input(base_offset, &one, join),
                _ => encode_input(base_offset, &one, &no_join),
            };
            let resp = self.guest.invoke(&payload);
            let ghost rv = resp@;
            let outcome = apply_response(kind, &inputs[i], resp);
            proof {
                let ms = models_of(inputs@);
                lemma_stage_eval_snoc(kind, ms.take(i as int), log, ms[i as int], rv);
                assert(ms.take(i + 1) =~= ms.take(i as int).push(ms[i as int]));
                assert(ms[i as int] == inputs@[i as int]@);
            }
            match outcome {
                RecordOutcome::Accepted(mut rs) => {
                    let ghost succ_before = succ@;
                    let ghost rs_view = rs@;
                    succ.append(&mut rs);
                    proof {
                        assert(models_of(succ@) =~= models_of(succ_before) + models_of(rs_view));
                    }
                },
                RecordOutcome::Dropped => {
                    dropped = dropped + 1;
                },
                RecordOutcome::Failed(f) => {
                    let ghost fails_before = fails@;
                    let ghost fv = f@;
                    fails.push(f);
                    proof {
                        assert(failure_models_of(fails@) =~= failure_models_of(
                            fails_before,
                        ).push(fv));
                    }
                },
            }
            proof {
                log = log.push(rv);
            }
            i = i + 1;
        }
        proof {
            assert(models_of(inputs@).take(inputs@.len() as int) =~= models_of(inputs@));
        }
        (succ, fails, dropped, Ghost(log))
    }
}

/// The full account of one `process` run over the per-stage response
/// log: the final successes, every failure in stage order, the dropped
/// count, and the totals the metrics counters grow by.
pub ghost struct ChainEvalModel {
    pub successes: Seq<RecordModel>,
    pub failures: Seq<FailureModel>,
    pub dropped: int,
    pub records_in: int,
    pub records_out: int,
    pub bytes_in: int,
    pub bytes_out: int,
}

/// Folds `stage_eval` over the stages: the successes of each stage are
/// exactly the input of the next; failures accumulate in stage order.
pub open spec fn chain_eval(
    kinds: Seq<TransformKind>,
    inputs: Seq<RecordModel>,
    log: Seq<Seq<ResponseModel>>,
) -> ChainEvalModel
    decreases kinds.len(),
{
    if kinds.len() == 0 {
        ChainEvalModel {
            successes: inputs,
            failures: Seq::empty(),
            dropped: 0,
            records_in: 0,
            records_out: 0,
            bytes_in: 0,
            bytes_out: 0,
        }
    } else {
        let s0 = stage_eval(kinds[0], inputs, log[0]);
        let rest = chain_eval(kinds.drop_first(), s0.successes, log.drop_first());
        ChainEvalModel {
            successes: rest.successes,
            failures: s0.failures + rest.failures,
            dropped: s0.dropped + rest.dropped,
            records_in: inputs.len() + rest.records_in,
            records_out: s0.successes.len() + rest.records_out,
            bytes_in: batch_bytes(inputs) + rest.bytes_in,
            bytes_out: batch_bytes(s0.successes) + rest.bytes_out,
        }
    }
}

/// A response log that fits a run: one response sequence per stage,
/// and at each stage one response per record of that stage's input.
pub open spec fn chain_log_wf(
    kinds: Seq<TransformKind>,
    inputs: Seq<RecordModel>,
    log: Seq<Seq<ResponseModel>>,
) -> bool
    decreases kinds.len(),
{
    &&& log.len() == kinds.len()
    &&& (kinds.len() > 0 ==> log[0].len() == inputs.len() && chain_log_wf(
        kinds.drop_first(),
        stage_eval(kinds[0], inputs, log[0]).successes,
        log.drop_first(),
    ))
}

/// How one more stage at the end of a chain extends the evaluation.
pub proof fn lemma_chain_eval_snoc(
    kinds: Seq<TransformKind>,
    inputs: Seq<RecordModel>,
    log: Seq<Seq<ResponseModel>>,
    k: TransformKind,
    resps: Seq<ResponseModel>,
)
    requires
        chain_log_wf(kinds, inputs, log),
        resps.len() == chain_eval(kinds, inputs, log).successes.len(),
    ensures
        ({
            let base = chain_eval(kinds, inputs, log);
            let s = stage_eval(k, base.successes, resps);
            let full = chain_eval(kinds.push(k), inputs, log.push(resps));
            &&& chain_log_wf(kinds.push(k), inputs, log.push(resps))
            &&& full.successes == s.successes
            &&& full.failures == base.failures + s.failures
            &&& full.dropped == base.dropped + s.dropped
            &&& full.records_in == base.records_in + base.successes.len()
            &&& full.records_out == base.records_out + s.successes.len()
            &&& full.bytes_in == base.bytes_in + batch_bytes(base.successes)
            &&& full.bytes_out == base.bytes_out + batch_bytes(s.successes)
        }),
    decreases kinds.len(),
{
    let pk = kinds.push(k);
    let pl = log.push(resps);
    if kinds.len() == 0 {
        assert(pk.drop_first() =~= Seq::<TransformKind>::empty());
        assert(pk.drop_first() == Seq::<TransformKind>::empty());
        assert(pl.drop_first() =~= Seq::<Seq<ResponseModel>>::empty());
        assert(pl.drop_first() == Seq::<Seq<ResponseModel>>::empty());
        assert(pk[0] == k);
        assert(pl[0] == resps);
        let s = stage_eval(k, inputs, resps);
        assert(chain_eval(
            Seq::<TransformKind>::empty(),
            s.successes,
            Seq::<Seq<ResponseModel>>::empty(),
        ) == (ChainEvalModel {
            successes: s.successes,
            failures: Seq::<FailureModel>::empty(),
            dropped: 0,
            records_in: 0,
            records_out: 0,
            bytes_in: 0,
            bytes_out: 0,
        }));
        assert(s.failures + Seq::<FailureModel>::empty() =~= Seq::<FailureModel>::empty()
            + s.failures);
        assert(chain_eval(kinds, inputs, log) == (ChainEvalModel {
            successes: inputs,
            failures: Seq::<FailureModel>::empty(),
            dropped: 0,
            records_in: 0,
            records_out: 0,
            bytes_in: 0,
            bytes_out: 0,
        }));
        assert(chain_log_wf(
            Seq::<TransformKind>::empty(),
            s.successes,
            Seq::<Seq<ResponseModel>>::empty(),
        ));
        assert(chain_log_wf(pk, inputs, pl));
    } else {
        let s0 = stage_eval(kinds[0], inputs, log[0]);
        lemma_chain_eval_snoc(kinds.drop_first(), s0.successes, log.drop_first(), k, resps);
        assert(pk.drop_first() =~= kinds.drop_first().push(k));
        assert(pk.drop_first() == kinds.drop_first().push(k));
        assert(pl.drop_first() =~= log.drop_first().push(resps));
        assert(pl.drop_first() == log.drop_first().push(resps));
        assert(pk[0] == kinds[0]);
        assert(pl[0] == log[0]);
        let br = chain_eval(kinds.drop_first(), s0.successes, log.drop_first());
        let s = stage_eval(k, br.successes, resps);
        assert(s0.failures + (br.failures + s.failures) =~= (s0.failures + br.failures)
            + s.failures);
        assert(chain_log_wf(pk, inputs, pl));
    }
}

/// Accumulates an ordered list of (configuration, bytecode module)
/// pairs; inert until `initialize`.
pub struct SmartModuleChainBuilder<M> {
    pub stages: Vec<(SmartModuleConfig, M)>,
}

/// An initialized chain: the immutable-order sequence of instances.
pub struct SmartModuleChain<M> {
    pub instances: Vec<SmartModuleInstance<M>>,
}

/// What construction reports for an error a module's `instantiate`
/// returned: the two run-time conditions are narrowed to
/// `Instantiation`; the construction errors pass through.
pub open spec fn construction_of(e: EngineError) -> EngineError {
    match e {
        EngineError::RuntimeTrap => EngineError::Instantiation,
        EngineError::Serialization => EngineError::Instantiation,
        _ => e,
    }
}

/// Narrows an error reported while building a chain to the
/// construction taxonomy: a runtime's own code never surfaces from
/// `initialize` as a run-time condition.
pub fn as_construction_error(e: EngineError) -> (r: EngineError)
    ensures
        r == construction_of(e),
        r == EngineError::Config || r == EngineError::Compile || r == EngineError::Instantiation
            || r == EngineError::InvalidModule,
{
    match e {
        EngineError::RuntimeTrap => EngineError::Instantiation,
        EngineError::Serialization => EngineError::Instantiation,
        _ => e,
    }
}

/// One stage's construction event: the module failed to instantiate
/// with the given error, or it instantiated and reported these export
/// names.
pub ghost enum StageBuild {
    Fail(EngineError),
    Exports(Seq<Seq<char>>),
}

/// The configurations of the queued stages, in order.
pub open spec fn configs_of<M>(stages: Seq<(SmartModuleConfig, M)>) -> Seq<SmartModuleConfig> {
    stages.map_values(|s: (SmartModuleConfig, M)| s.0)
}

/// What one stage's construction yields: an instantiation failure,
/// narrowed to the construction taxonomy; or the probe of the reported
/// exports against the hint, where a join stage without its auxiliary
/// stream binding is a configuration error.
pub open spec fn stage_build_result(config: SmartModuleConfig, b: StageBuild) -> Result<
    TransformKind,
    EngineError,
> {
    match b {
        StageBuild::Fail(e) => Result::Err(construction_of(e)),
        StageBuild::Exports(names) => match select_spec(names, config.kind_hint) {
            Result::Err(e) => Result::Err(e),
            Result::Ok(k) => if k == TransformKind::Join && config.join_stream is None {
                Result::Err(EngineError::Config)
            } else {
                Result::Ok(k)
            },
        },
    }
}

/// Folds construction over the queued stages, in order: the first
/// failing stage's error, or every stage's probed kind.
pub open spec fn build_eval(configs: Seq<SmartModuleConfig>, log: Seq<StageBuild>) -> Result<
    Seq<TransformKind>,
    EngineError,
>
    decreases configs.len(),
{
    if configs.len() == 0 {
        Result::Ok(Seq::empty())
    } else {
        match stage_build_result(configs[0], log[0]) {
            Result::Err(e) => Result::Err(e),
            Result::Ok(k) => match build_eval(configs.drop_first(), log.drop_first()) {
                Result::Err(e) => Result::Err(e),
                Result::Ok(ks) => Result::Ok(seq![k] + ks),
            },
        }
    }
}

/// `initialize`'s result explained by a construction log: on success
/// the chain's kinds are exactly the fold of the log over the queued
/// configurations; on failure the error is the first failing stage's.
pub open spec fn build_matches<M>(
    stages: Seq<(SmartModuleConfig, M)>,
    log: Seq<StageBuild>,
    r: Result<SmartModuleChain<M>, EngineError>,
) -> bool {
    &&& log.len() == stages.len()
    &&& (match r {
        Result::Ok(chain) => build_eval(configs_of(stages), log) == Result::<
            Seq<TransformKind>,
            EngineError,
        >::Ok(kinds_of(chain.instances@)),
        Result::Err(e) => build_eval(configs_of(stages), log) == Result::<
            Seq<TransformKind>,
            EngineError,
        >::Err(e),
    })
}

/// `validate`'s result explained by one construction event.
pub open spec fn validate_matches(b: StageBuild, r: Result<(), EngineError>) -> bool {
    match b {
        StageBuild::Fail(e) => r == Result::<(), EngineError>::Err(construction_of(e)),
        StageBuild::Exports(names) => match select_spec(names, Option::None) {
            Result::Ok(_) => r == Result::<(), EngineError>::Ok(()),
            Result::Err(e) => r == Result::<(), EngineError>::Err(e),
        },
    }
}

/// How one more stage at the end extends the construction fold.
proof fn lemma_build_eval_snoc(
    configs: Seq<SmartModuleConfig>,
    log: Seq<StageBuild>,
    c: SmartModuleConfig,
    b: StageBuild,
)
    requires
        log.len() == configs.len(),
    ensures
        ({
            let base = build_eval(configs, log);
            let full = build_eval(configs.push(c), log.push(b));
            match (base, stage_build_result(c, b)) {
                (Result::Ok(ks), Result::Ok(k)) => full == Result::<
                    Seq<TransformKind>,
                    EngineError,
                >::Ok(ks.push(k)),
                (Result::Ok(ks), Result::Err(e)) => full == Result::<
                    Seq<TransformKind>,
                    EngineError,
                >::Err(e),
                (Result::Err(e), _) => full == Result::<Seq<TransformKind>, EngineError>::Err(e),
            }
        }),
    decreases configs.len(),
{
    let pc = configs.push(c);
    let pl = log.push(b);
    if configs.len() == 0 {
        assert(pc.drop_first() =~= Seq::<SmartModuleConfig>::empty());
        assert(pc.drop_first() == Seq::<SmartModuleConfig>::empty());
        assert(pl.drop_first() =~= Seq::<StageBuild>::empty());
        assert(pl.drop_first() == Seq::<StageBuild>::empty());
        assert(pc[0] == c);
        assert(pl[0] == b);
        assert(build_eval(Seq::<SmartModuleConfig>::empty(), Seq::<StageBuild>::empty())
            == Result::<Seq<TransformKind>, EngineError>::Ok(Seq::empty()));
        match stage_build_result(c, b) {
            Result::Ok(k) => {
                assert(seq![k] + Seq::<TransformKind>::empty() =~= Seq::<
                    TransformKind,
                >::empty().push(k));
            },
            Result::Err(_) => {},
        }
    } else {
        lemma_build_eval_snoc(configs.drop_first(), log.drop_first(), c, b);
        assert(pc.drop_first() =~= configs.drop_first().push(c));
        assert(pc.drop_first() == configs.drop_first().push(c));
        assert(pl.drop_first() =~= log.drop_first().push(b));
        assert(pl.drop_first() == log.drop_first().push(b));
        assert(pc[0] == configs[0]);
        assert(pl[0] == log[0]);
        match (
            stage_build_result(configs[0], log[0]),
            build_eval(configs.drop_first(), log.drop_first()),
            stage_build_result(c, b),
        ) {
            (Result::Ok(k0), Result::Ok(ks), Result::Ok(k)) => {
                assert(seq![k0] + ks.push(k) =~= (seq![k0] + ks).push(k));
            },
            _ => {},
        }
    }
}

/// A failed construction fold stays failed under any events for the
/// stages that were never attempted.
proof fn lemma_build_eval_pad(configs: Seq<SmartModuleConfig>, log: Seq<StageBuild>, e: EngineError)
    requires
        log.len() <= configs.len(),
        build_eval(configs.take(log.len() as int), log) == Result::<
            Seq<TransformKind>,
            EngineError,
        >::Err(e),
    ensures
        ({
            let padded = log + Seq::new(
                (configs.len() - log.len()) as nat,
                |k: int| StageBuild::Fail(EngineError::Config),
            );
            padded.len() == configs.len() && build_eval(configs, padded) == Result::<
                Seq<TransformKind>,
                EngineError,
            >::Err(e)
        }),
    decreases configs.len() - log.len(),
{
    if log.len() == configs.len() {
        assert(configs.take(log.len() as int) =~= configs);
        assert(configs.take(log.len() as int) == configs);
        assert(log + Seq::new(0, |k: int| StageBuild::Fail(EngineError::Config)) =~= log);
        assert(log + Seq::new(0, |k: int| StageBuild::Fail(EngineError::Config)) == log);
    } else {
        let l2 = log.push(StageBuild::Fail(EngineError::Config));
        lemma_build_eval_snoc(
            configs.take(log.len() as int),
            log,
            configs[log.len() as int],
            StageBuild::Fail(EngineError::Config),
        );
        assert(configs.take(log.len() as int + 1) =~= configs.take(log.len() as int).push(
            configs[log.len() as int],
        ));
        assert(configs.take(log.len() as int + 1) == configs.take(log.len() as int).push(
            configs[log.len() as int],
        ));
        lemma_build_eval_pad(configs, l2, e);
        assert(log + Seq::new(
            (configs.len() - log.len()) as nat,
            |k: int| StageBuild::Fail(EngineError::Config),
        ) =~= l2 + Seq::new(
            (configs.len() - l2.len()) as nat,
            |k: int| StageBuild::Fail(EngineError::Config),
        ));
    }
}

impl SmartEngine {
    /// Pre-flight check of a module at spec-creation time, before any
    /// chain is built: the module must instantiate against this
    /// capability and expose exactly one recognized transform entry
    /// point.  The result is pinned to the construction event by
    /// `validate_matches`; any failure is a construction error.
    pub fn validate<M: GuestModule>(&self, module: &M) -> (r: Result<(), EngineError>)
        ensures
            exists|b: StageBuild| #[trigger] validate_matches(b, r),
            match r {
                Result::Ok(_) => true,
                Result::Err(e) => e == EngineError::Config || e == EngineError::Compile || e
                    == EngineError::Instantiation || e == EngineError::InvalidModule,
            },
    {
        let probe_config = SmartModuleConfig::new();
        match module.instantiate(self, &probe_config) {
            Result::Err(e) => {
                let err = as_construction_error(e);
                proof {
                    assert(validate_matches(
                        StageBuild::Fail(e),
                        Result::<(), EngineError>::Err(err),
                    ));
                }
                Result::Err(err)
            },
            Result::Ok(inst) => {
                let exports = inst.exports();
                match select_transform(&exports, Option::None) {
                    Result::Err(e) => {
                        proof {
                            assert(validate_matches(
                                StageBuild::Exports(names_of(exports@)),
                                Result::<(), EngineError>::Err(e),
                            ));
                        }
                        Result::Err(e)
                    },
                    Result::Ok(_) => {
                        proof {
                            assert(validate_matches(
                                StageBuild::Exports(names_of(exports@)),
                                Result::<(), EngineError>::Ok(()),
                            ));
                        }
                        Result::Ok(())
                    },
                }
            },
        }
    }
}

impl<M: GuestModule> SmartModuleChainBuilder<M> {
    /// An empty builder.
    pub fn new() -> (r: SmartModuleChainBuilder<M>)
        ensures
            r.stages@.len() == 0,
    {
        SmartModuleChainBuilder { stages: Vec::new() }
    }

    /// Appends a stage; call order is execution order.  Nothing is
    /// validated here — validation is deferred to `initialize`.
    pub fn add_smart_module(&mut self, config: SmartModuleConfig, module: M)
        ensures
            final(self).stages@ == old(self).stages@.push((config, module)),
    {
        self.stages.push((config, module));
    }

    /// Compiles and instantiates every queued stage in order against
    /// the capability and probes its transform entry point.  Returns a
    /// fully usable chain with one instance per queued stage, or the
    /// first construction error — never a partial chain.  A join stage
    /// whose configuration names no auxiliary stream is a
    /// configuration error.  The result is pinned to a per-stage
    /// construction log by `build_matches`: an empty builder always
    /// yields a chain, a success means every stage was built and
    /// probed, and an error is always the first failing stage's.  Each
    /// call instantiates fresh guest instances, so two chains built
    /// from the same builder share no mutable state.
    pub fn initialize(&self, engine: &SmartEngine) -> (r: Result<SmartModuleChain<M>, EngineError>)
        ensures
            exists|log: Seq<StageBuild>| #[trigger] build_matches(self.stages@, log, r),
            self.stages@.len() == 0 ==> r is Ok,
            match r {
                Result::Ok(chain) => {
                    &&& chain.instances@.len() == self.stages@.len()
                    &&& (forall|i: int|
                        0 <= i < self.stages@.len() ==> (match (
                        #[trigger] self.stages@[i]).0.kind_hint {
                            Option::Some(h) => chain.instances@[i].kind == h,
                            Option::None => true,
                        }))
                    &&& (forall|i: int|
                        0 <= i < self.stages@.len() ==> ((#[trigger] chain.instances@[i]).kind
                            == TransformKind::Join ==> self.stages@[i].0.join_stream is Some))
                },
                Result::Err(e) => e == EngineError::Config || e == EngineError::Compile || e
                    == EngineError::Instantiation || e == EngineError::InvalidModule,
            },
    {
        let ghost cfgs = configs_of(self.stages@);
        let mut instances: Vec<SmartModuleInstance<M>> = Vec::new();
        let ghost mut blog: Seq<StageBuild> = Seq::empty();
        let mut i: usize = 0;
        proof {
            assert(cfgs.take(0) =~= Seq::<SmartModuleConfig>::empty());
            assert(cfgs.take(0) == Seq::<SmartModuleConfig>::empty());
            assert(kinds_of(instances@) =~= Seq::<TransformKind>::empty());
            assert(build_eval(cfgs.take(0), blog) == Result::<Seq<TransformKind>, EngineError>::Ok(
                kinds_of(instances@),
            ));
        }
        while i < self.stages.len()
            invariant
                i <= self.stages@.len(),
                instances@.len() == i,
                cfgs == configs_of(self.stages@),
                cfgs.len() == self.stages@.len(),
                blog.len() == i,
                build_eval(cfgs.take(i as int), blog) == Result::<
                    Seq<TransformKind>,
                    EngineError,
                >::Ok(kinds_of(instances@)),
                forall|j: int|
                    0 <= j < i ==> (match (#[trigger] self.stages@[j]).0.kind_hint {
                        Option::Some(h) => instances@[j].kind == h,
                        Option::None => true,
                    }),
                forall|j: int|
                    0 <= j < i ==> ((#[trigger] instances@[j]).kind == TransformKind::Join
                        ==> self.stages@[j].0.join_stream is Some),
            decreases self.stages@.len() - i,
        {
            let module = &self.stages[i].1;
            let config = &self.stages[i].0;
            proof {
                assert(cfgs[i as int] == self.stages@[i as int].0);
            }
            match module.instantiate(engine, config) {
                Result::Err(e) => {
                    let err = as_construction_error(e);
                    proof {
                        let ev = StageBuild::Fail(e);
                        lemma_build_eval_snoc(cfgs.take(i as int), blog, cfgs[i as int], ev);
                        assert(cfgs.take(i + 1) =~= cfgs.take(i as int).push(cfgs[i as int]));
                        assert(cfgs.take(i + 1) == cfgs.take(i as int).push(cfgs[i as int]));
                        lemma_build_eval_pad(cfgs, blog.push(ev), err);
                        let padded = blog.push(ev) + Seq::new(
                            (cfgs.len() - (i + 1)) as nat,
                            |k: int| StageBuild::Fail(EngineError::Config),
                        );
                        assert(build_matches(
                            self.stages@,
                            padded,
                            Result::<SmartModuleChain<M>, EngineError>::Err(err),
                        ));
                    }
                    return Result::Err(err);
                },
                Result::Ok(inst) => {
                    let exports = inst.exports();
                    match select_transform(&exports, config.kind_hint) {
                        Result::Err(e) => {
                            proof {
                                let ev = StageBuild::Exports(names_of(exports@));
                                assert(stage_build_result(cfgs[i as int], ev) == Result::<
                                    TransformKind,
                                    EngineError,
                                >::Err(e));
                                lemma_build_eval_snoc(
                                    cfgs.take(i as int),
                                    blog,
                                    cfgs[i as int],
                                    ev,
                                );
                                assert(cfgs.take(i + 1) =~= cfgs.take(i as int).push(
                                    cfgs[i as int],
                                ));
                                assert(cfgs.take(i + 1) == cfgs.take(i as int).push(
                                    cfgs[i as int],
                                ));
                                lemma_build_eval_pad(cfgs, blog.push(ev), e);
                                let padded = blog.push(ev) + Seq::new(
                                    (cfgs.len() - (i + 1)) as nat,
                                    |k: int| StageBuild::Fail(EngineError::Config),
                                );
                                assert(build_matches(
                                    self.stages@,
                                    padded,
                                    Result::<SmartModuleChain<M>, EngineError>::Err(e),
                                ));
                            }
                            return Result::Err(e);
                        },
                        Result::Ok(kind) => {
                            proof {
                                assert(select_spec(names_of(exports@), config.kind_hint)
                                    == Result::<TransformKind, EngineError>::Ok(kind));
                            }
                            let needs_join = match kind {
                                TransformKind::Join => true,
                                _ => false,
                            };
                            if needs_join && config.join_stream.is_none() {
                                proof {
                                    let ev = StageBuild::Exports(names_of(exports@));
                                    assert(stage_build_result(cfgs[i as int], ev) == Result::<
                                        TransformKind,
                                        EngineError,
                                    >::Err(EngineError::Config));
                                    lemma_build_eval_snoc(
                                        cfgs.take(i as int),
                                        blog,
                                        cfgs[i as int],
                                        ev,
                                    );
                                    assert(cfgs.take(i + 1) =~= cfgs.take(i as int).push(
                                        cfgs[i as int],
                                    ));
                                    assert(cfgs.take(i + 1) == cfgs.take(i as int).push(
                                        cfgs[i as int],
                                    ));
                                    lemma_build_eval_pad(
                                        cfgs,
                                        blog.push(ev),
                                        EngineError::Config,
                                    );
                                    let padded = blog.push(ev) + Seq::new(
                                        (cfgs.len() - (i + 1)) as nat,
                                        |k: int| StageBuild::Fail(EngineError::Config),
                                    );
                                    assert(build_matches(
                                        self.stages@,
                                        padded,
                                        Result::<SmartModuleChain<M>, EngineError>::Err(
                                            EngineError::Config,
                                        ),
                                    ));
                                }
                                return Result::Err(EngineError::Config);
                            }
                            let ghost prev = instances@;
                            proof {
                                let ev = StageBuild::Exports(names_of(exports@));
                                assert(stage_build_result(cfgs[i as int], ev) == Result::<
                                    TransformKind,
                                    EngineError,
                                >::Ok(kind));
                                lemma_build_eval_snoc(
                                    cfgs.take(i as int),
                                    blog,
                                    cfgs[i as int],
                                    ev,
                                );
                                assert(cfgs.take(i + 1) =~= cfgs.take(i as int).push(
                                    cfgs[i as int],
                                ));
                                assert(cfgs.take(i + 1) == cfgs.take(i as int).push(
                                    cfgs[i as int],
                                ));
                                blog = blog.push(ev);
                            }
                            instances.push(SmartModuleInstance { kind, guest: inst });
                            proof {
                                assert(kinds_of(instances@) =~= kinds_of(prev).push(kind));
                                assert(kinds_of(instances@) == kinds_of(prev).push(kind));
                            }
                        },
                    }
                },
            }
            i = i + 1;
        }
        proof {
            assert(cfgs.take(self.stages@.len() as int) =~= cfgs);
            assert(cfgs.take(self.stages@.len() as int) == cfgs);
            assert(build_matches(
                self.stages@,
                blog,
                Result::<SmartModuleChain<M>, EngineError>::Ok(
                    SmartModuleChain { instances: instances },
                ),
            ));
        }
        Result::Ok(SmartModuleChain { instances })
    }
}

impl<M: GuestModule> Default for SmartModuleChainBuilder<M> {
    /// An empty builder.
    fn default() -> (r: SmartModuleChainBuilder<M>)
        ensures
            r.stages@.len() == 0,
    {
        SmartModuleChainBuilder::new()
    }
}

impl<M: GuestModule> SmartModuleChain<M> {
    /// The transform kinds of the stages, in execution order.
    pub open spec fn kinds(&self) -> Seq<TransformKind> {
        kinds_of(self.instances@)
    }

    /// Read access to the instances, for introspection.
    pub fn instances(&self) -> (r: &Vec<SmartModuleInstance<M>>)
        ensures
            *r == self.instances,
    {
        &self.instances
    }

    /// The number of stages.
    pub fn len(&self) -> (r: usize)
        ensures
            r == self.instances@.len(),
    {
        self.instances.len()
    }

    /// Runs the batch through every stage in order, to completion.
    ///
    /// The returned ghost data is the per-stage guest response log; the
    /// output is exactly `chain_eval` of that log: the last stage's
    /// successes, and every failure contained at the stage where it
    /// happened, in detection order.  The metrics grow by the run's
    /// totals, saturating, and no counter ever decreases.  `process`
    /// always returns a complete output; no guest behaviour can make
    /// it panic or fail.
    pub fn process(&mut self, input: SmartModuleInput, metrics: &mut SmartModuleChainMetrics)
        -> (r: (SmartModuleOutput, Ghost<Seq<Seq<ResponseModel>>>))
        ensures
            final(self).kinds() == old(self).kinds(),
            chain_log_wf(old(self).kinds(), models_of(input.records@), r.1@),
            ({
                let ev = chain_eval(old(self).kinds(), models_of(input.records@), r.1@);
                &&& models_of(r.0.successes@) == ev.successes
                &&& failure_models_of(r.0.failures@) == ev.failures
                &&& final(metrics).records_in as int == capped(
                    old(metrics).records_in + ev.records_in,
                )
                &&& final(metrics).records_out as int == capped(
                    old(metrics).records_out + ev.records_out,
                )
                &&& final(metrics).bytes_in as int == capped(old(metrics).bytes_in + ev.bytes_in)
                &&& final(metrics).bytes_out as int == capped(
                    old(metrics).bytes_out + ev.bytes_out,
                )
                &&& final(metrics).errors as int == capped(
                    old(metrics).errors + ev.failures.len(),
                )
            }),
            final(metrics).records_in >= old(metrics).records_in,
            final(metrics).records_out >= old(metrics).records_out,
            final(metrics).bytes_in >= old(metrics).bytes_in,
            final(metrics).bytes_out >= old(metrics).bytes_out,
            final(metrics).errors >= old(metrics).errors,
    {
        let SmartModuleInput { base_offset, records, join_records } = input;
        let ghost inputs0 = models_of(records@);
        let ghost kinds0 = kinds_of(old(self).instances@);
        let mut current = records;
        let mut failures: Vec<RecordFailure> = Vec::new();
        let ghost mut log: Seq<Seq<ResponseModel>> = Seq::empty();
        let mut s: usize = 0;
        proof {
            assert(kinds0.take(0) =~= Seq::<TransformKind>::empty());
            assert(failure_models_of(failures@) =~= Seq::<FailureModel>::empty());
            assert(chain_eval(kinds0.take(0), inputs0, log) == (ChainEvalModel {
                successes: inputs0,
                failures: Seq::<FailureModel>::empty(),
                dropped: 0,
                records_in: 0,
                records_out: 0,
                bytes_in: 0,
                bytes_out: 0,
            }));
        }
        while s < self.instances.len()
            invariant
                s <= self.instances@.len(),
                kinds_of(self.instances@) == kinds0,
                kinds0.len() == self.instances@.len(),
                log.len() == s,
                chain_log_wf(kinds0.take(s as int), inputs0, log),
                ({
                    let ev = chain_eval(kinds0.take(s as int), inputs0, log);
                    &&& models_of(current@) == ev.successes
                    &&& failure_models_of(failures@) == ev.failures
                    &&& metrics.records_in as int == capped(
                        old(metrics).records_in + ev.records_in,
                    )
                    &&& metrics.records_out as int == capped(
                        old(metrics).records_out + ev.records_out,
                    )
                    &&& metrics.bytes_in as int == capped(old(metrics).bytes_in + ev.bytes_in)
                    &&& metrics.bytes_out as int == capped(old(metrics).bytes_out + ev.bytes_out)
                    &&& metrics.errors as int == capped(old(metrics).errors + ev.failures.len())
                }),
                metrics.records_in >= old(metrics).records_in,
                metrics.records_out >= old(metrics).records_out,
                metrics.bytes_in >= old(metrics).bytes_in,
                metrics.bytes_out >= old(metrics).bytes_out,
                metrics.errors >= old(metrics).errors,
            decreases self.instances@.len() - s,
        {
            let ghost ev_before = chain_eval(kinds0.take(s as int), inputs0, log);
            let recs_in_delta = current.len() as u64;
            let bytes_in_delta = batch_bytes_of(&current);
            let inst = &mut self.instances[s];
            let ghost kind_s = inst.kind;
            let (succ, mut fails, _dropped, stage_log) = inst.run_stage(
                base_offset,
                &current,
                &join_records,
            );
            proof {
                assert(kinds_of(self.instances@) =~= kinds0);
                assert(kinds0[s as int] == kind_s);
                lemma_chain_eval_snoc(kinds0.take(s as int), inputs0, log, kind_s, stage_log@);
                assert(kinds0.take(s + 1) =~= kinds0.take(s as int).push(kind_s));
            }
            let recs_out_delta = succ.len() as u64;
            let bytes_out_delta = batch_bytes_of(&succ);
            let errs_delta = fails.len() as u64;
            proof {
                let sv = stage_eval(kind_s, models_of(current@), stage_log@);
                lemma_batch_bytes_nonneg(models_of(current@));
                lemma_batch_bytes_nonneg(models_of(succ@));
                lemma_batch_bytes_nonneg(sv.successes);
                lemma_capped_add(
                    old(metrics).records_in + ev_before.records_in,
                    models_of(current@).len() as int,
                );
                lemma_capped_add(
                    old(metrics).records_out + ev_before.records_out,
                    sv.successes.len() as int,
                );
                lemma_capped_add(
                    old(metrics).bytes_in + ev_before.bytes_in,
                    batch_bytes(models_of(current@)),
                );
                lemma_capped_add(
                    old(metrics).bytes_out + ev_before.bytes_out,
                    batch_bytes(sv.successes),
                );
                lemma_capped_add(
                    old(metrics).errors + ev_before.failures.len(),
                    sv.failures.len() as int,
                );
            }
            metrics.add_stage(
                recs_in_delta,
                recs_out_delta,
                bytes_in_delta,
                bytes_out_delta,
                errs_delta,
            );
            let ghost failures_before = failures@;
            let ghost fails_view = fails@;
            failures.append(&mut fails);
            proof {
                assert(failure_models_of(failures@) =~= failure_models_of(failures_before)
                    + failure_models_of(fails_view));
            }
            current = succ;
            proof {
                log = log.push(stage_log@);
            }
            s = s + 1;
        }
        proof {
            assert(kinds0.take(self.instances@.len() as int) =~= kinds0);
        }
        (SmartModuleOutput { successes: current, failures }, Ghost(log))
    }
}

} // verus!
