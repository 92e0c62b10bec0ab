use vstd::prelude::*;
use crate::handlers::error::{internal_server_error, is_error_response};
use crate::message::HttpResponse;

verus! {

/// Where a request stands in the module pipeline: before the `i`-th module's pre-processing, at
/// the request handler, after the `i`-th module's post-processing is due, or done.
#[derive(Clone, Copy, Debug, PartialEq, Eq, Structural)]
pub enum PipelineStage {
    Pre(usize),
    Handle,
    Post(usize),
    Done,
}

/// How a module's step went: it let the request pass, answered it, or failed.
pub enum ModuleOutcome {
    Passed,
    Answered(HttpResponse),
    Failed,
}

/// The answer of the pipeline for a failed pre-processing step: 500.
pub open spec fn is_internal_error(r: HttpResponse) -> bool {
    is_error_response(r, 500, "The server encountered an internal error and was unable to complete your request."@)
        && r.headers@.len() == 1
}

/// The stage after the pre-processing of module `i` let the request pass: the next module, or
/// the handler after the last one.
pub open spec fn after_pre(i: int, module_count: usize) -> PipelineStage {
    if i + 1 < module_count { PipelineStage::Pre((i + 1) as usize) } else { PipelineStage::Handle }
}

/// The stage after the post-processing of module `i`: the next module, or done after the last.
pub open spec fn after_post(i: int, module_count: usize) -> PipelineStage {
    if i + 1 < module_count { PipelineStage::Post((i + 1) as usize) } else { PipelineStage::Done }
}

/// The stage that follows `stage` given the outcome of its step (see `pipeline_step`).
pub open spec fn next_stage(stage: PipelineStage, module_count: usize, outcome: ModuleOutcome) -> PipelineStage {
    match stage {
        PipelineStage::Pre(i) => match outcome {
            ModuleOutcome::Passed => after_pre(i as int, module_count),
            _ => PipelineStage::Done,
        },
        PipelineStage::Handle => if module_count > 0 { PipelineStage::Post(0) } else { PipelineStage::Done },
        PipelineStage::Post(i) => after_post(i as int, module_count),
        PipelineStage::Done => PipelineStage::Done,
    }
}

/// The stage reached after the pre-processing steps of the first `k` modules have been taken
/// where still due, the `i`-th module's step having gone as `outcomes[i]` says.
pub open spec fn pre_stage_after(module_count: usize, outcomes: Seq<ModuleOutcome>, k: nat) -> PipelineStage
    decreases k,
{
    if k == 0 {
        if module_count > 0 { PipelineStage::Pre(0) } else { PipelineStage::Handle }
    } else {
        match pre_stage_after(module_count, outcomes, (k - 1) as nat) {
            PipelineStage::Pre(i) => next_stage(PipelineStage::Pre(i), module_count, outcomes[i as int]),
            s => s,
        }
    }
}

/// The modules before the `k`-th all let the request pass.
pub open spec fn all_passed(outcomes: Seq<ModuleOutcome>, k: int) -> bool {
    forall|j: int| 0 <= j < k ==> #[trigger] outcomes[j] is Passed
}

/// Pre-processing runs the modules in order until the first one that does not let the request
/// pass: after `k` steps the pipeline is at module `k` while all before it passed, at the handler
/// once all modules passed, and done (with that module's answer) as soon as one did not pass; no
/// later module runs.
pub proof fn first_module_to_answer_decides(module_count: usize, outcomes: Seq<ModuleOutcome>, k: nat)
    requires
        outcomes.len() == module_count,
        k <= module_count,
    ensures
        pre_stage_after(module_count, outcomes, k) == if all_passed(outcomes, k as int) {
            if k < module_count { PipelineStage::Pre(k as usize) } else { PipelineStage::Handle }
        } else {
            PipelineStage::Done
        },
    decreases k,
{
    if k > 0 {
        first_module_to_answer_decides(module_count, outcomes, (k - 1) as nat);
        if all_passed(outcomes, k - 1) {
            if outcomes[k - 1] is Passed {
                assert(all_passed(outcomes, k as int));
            } else {
                assert(!all_passed(outcomes, k as int));
            }
        } else {
            assert(!all_passed(outcomes, k as int));
        }
    }
}

/// The first stage of a request: the first module's pre-processing, or the handler when there
/// are no modules.
pub fn pipeline_start(module_count: usize) -> (res: PipelineStage)
    ensures
        res == if module_count > 0 { PipelineStage::Pre(0) } else { PipelineStage::Handle },
{
    if module_count > 0 { PipelineStage::Pre(0) } else { PipelineStage::Handle }
}

/// Takes the outcome of the current stage and gives the next stage, with the final answer when
/// the pipeline ends early. Modules pre-process in order; the first that answers decides the
/// response, and one that fails makes it 500, with no further module run. When all let the
/// request pass, the handler answers (the outcome at `Handle` is not read), then every module
/// post-processes the response in order: a failure there is logged by the caller and the next
/// module runs.
pub fn pipeline_step(stage: PipelineStage, module_count: usize, outcome: ModuleOutcome) -> (res: (PipelineStage, Option<HttpResponse>))
    ensures
        match stage {
            PipelineStage::Pre(i) => match outcome {
                ModuleOutcome::Answered(r) => res.0 == PipelineStage::Done && res.1 == Some(r),
                ModuleOutcome::Failed => res.0 == PipelineStage::Done && (res.1 matches Some(r) && is_internal_error(r)),
                ModuleOutcome::Passed => res.0 == after_pre(i as int, module_count) && res.1 is None,
            },
            PipelineStage::Handle => res.0 == (if module_count > 0 { PipelineStage::Post(0) } else { PipelineStage::Done })
                && res.1 is None,
            PipelineStage::Post(i) => res.0 == after_post(i as int, module_count) && res.1 is None,
            PipelineStage::Done => res.0 == PipelineStage::Done && res.1 is None,
        },
        res.0 == next_stage(stage, module_count, outcome),
{
    match stage {
        PipelineStage::Pre(i) => match outcome {
            ModuleOutcome::Answered(r) => (PipelineStage::Done, Some(r)),
            ModuleOutcome::Failed => (PipelineStage::Done, Some(internal_server_error())),
            ModuleOutcome::Passed => {
                if i < module_count && i + 1 < module_count {
                    (PipelineStage::Pre(i + 1), None)
                } else {
                    (PipelineStage::Handle, None)
                }
            },
        },
        PipelineStage::Handle => {
            if module_count > 0 { (PipelineStage::Post(0), None) } else { (PipelineStage::Done, None) }
        },
        PipelineStage::Post(i) => {
            if i < module_count && i + 1 < module_count {
                (PipelineStage::Post(i + 1), None)
            } else {
                (PipelineStage::Done, None)
            }
        },
        PipelineStage::Done => (PipelineStage::Done, None),
    }
}

} // verus!
