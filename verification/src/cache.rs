//! The choice that a run-time dispatcher keeps between calls: the first call
//! detects the machine's features and stores the version it chose, and every
//! later call runs the stored version without detecting again.
use vstd::prelude::*;

verus! {

/// What a dispatcher that keeps its choice knows between calls.
#[derive(PartialEq, Eq, Structural, Clone, Copy, Debug)]
pub enum DispatchCache {
    /// No call has chosen a version yet.
    Unresolved,
    /// The version that the first call chose: `None` for the default one.
    Resolved(Option<usize>),
}

/// What a call does first.
#[derive(PartialEq, Eq, Structural, Clone, Copy, Debug)]
pub enum CallStep {
    /// Detect the machine's features, then record the version they select.
    Detect,
    /// Run this version (`None` for the default one) without detecting.
    Run(Option<usize>),
}

pub open spec fn call_step_spec(cache: DispatchCache) -> CallStep {
    match cache {
        DispatchCache::Unresolved => CallStep::Detect,
        DispatchCache::Resolved(v) => CallStep::Run(v),
    }
}

/// One call, where detection would select `choice`: the cache after the
/// call, the version it runs, and whether it detected.
pub open spec fn call_spec(cache: DispatchCache, choice: Option<usize>) -> (DispatchCache, Option<usize>, bool) {
    match call_step_spec(cache) {
        CallStep::Detect => (DispatchCache::Resolved(choice), choice, true),
        CallStep::Run(v) => (cache, v, false),
    }
}

/// Successive calls from `cache`, where `choices[i]` is the version that
/// detection would select at call `i` (the machine may change between
/// calls): for each call, the version it runs and whether it detected.
pub open spec fn run_calls(cache: DispatchCache, choices: Seq<Option<usize>>) -> Seq<(Option<usize>, bool)>
    decreases choices.len(),
{
    if choices.len() == 0 {
        Seq::empty()
    } else {
        let (next, v, detected) = call_spec(cache, choices[0]);
        seq![(v, detected)] + run_calls(next, choices.drop_first())
    }
}

/// What a call does first with the cache it finds.
pub fn call_step(cache: DispatchCache) -> (r: CallStep)
    ensures
        r == call_step_spec(cache),
{
    match cache {
        DispatchCache::Unresolved => CallStep::Detect,
        DispatchCache::Resolved(v) => CallStep::Run(v),
    }
}

/// After detection selected `choice`: the cache to keep, and the version to
/// run now.
pub fn record_choice(choice: Option<usize>) -> (r: (DispatchCache, Option<usize>))
    ensures
        (r.0, r.1, true) == call_spec(DispatchCache::Unresolved, choice),
{
    (DispatchCache::Resolved(choice), choice)
}

proof fn lemma_resolved_calls(v: Option<usize>, choices: Seq<Option<usize>>)
    ensures
        run_calls(DispatchCache::Resolved(v), choices).len() == choices.len(),
        forall|i: int|
            0 <= i < choices.len() ==> #[trigger] run_calls(DispatchCache::Resolved(v), choices)[i] == (v, false),
    decreases choices.len(),
{
    if choices.len() > 0 {
        lemma_resolved_calls(v, choices.drop_first());
        let rest = run_calls(DispatchCache::Resolved(v), choices.drop_first());
        assert forall|i: int| 0 <= i < choices.len() implies #[trigger] run_calls(
            DispatchCache::Resolved(v),
            choices,
        )[i] == (v, false) by {
            if i > 0 {
                assert(run_calls(DispatchCache::Resolved(v), choices)[i] == rest[i - 1]);
            }
        }
    }
}

/// Feature detection is performed only once: from an empty cache, the first
/// call detects and runs the version that detection selects, and every later
/// call runs that same version without detecting, whatever detection would
/// select by then.
pub proof fn lemma_detection_runs_once(choices: Seq<Option<usize>>)
    requires
        choices.len() > 0,
    ensures
        run_calls(DispatchCache::Unresolved, choices).len() == choices.len(),
        run_calls(DispatchCache::Unresolved, choices)[0] == (choices[0], true),
        forall|i: int|
            0 < i < choices.len() ==> #[trigger] run_calls(DispatchCache::Unresolved, choices)[i] == (
                choices[0],
                false,
            ),
{
    let rest = choices.drop_first();
    lemma_resolved_calls(choices[0], rest);
    assert forall|i: int| 0 < i < choices.len() implies #[trigger] run_calls(
        DispatchCache::Unresolved,
        choices,
    )[i] == (choices[0], false) by {
        assert(run_calls(DispatchCache::Unresolved, choices)[i] == run_calls(
            DispatchCache::Resolved(choices[0]),
            rest,
        )[i - 1]);
    }
}

} // verus!
