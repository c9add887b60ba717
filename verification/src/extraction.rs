//! Turning service-time traces into timed tokens: each `(activity, time)`
//! pair becomes an `(activity, bin)` token by looking up the activity's
//! trained binner. Service times are integer-scaled measurements (e.g.
//! milliseconds).

use vstd::prelude::*;

use crate::binning::{Binner, BinnerManager};

verus! {

/// Applies binning to one service time trace: the activity is kept and the
/// service time is replaced by its bin under the activity's binner.
///
/// Every activity of the trace must have been in the binning training data:
/// asking for an untrained key is a programmer-contract violation, excluded
/// by precondition.
pub fn apply_binner_manager_on_service_time_trace<T: Binner>(
    service_time_trace: Vec<(String, u64)>,
    binner_manager: &BinnerManager<T>,
) -> (r: Vec<(String, usize)>)
    requires
        binner_manager.wf(),
        forall|j: int|
            0 <= j < service_time_trace@.len() ==> binner_manager.has_binner(
                (#[trigger] service_time_trace@[j]).0@,
            ),
    ensures
        r@.len() == service_time_trace@.len(),
        forall|j: int|
            0 <= j < r@.len() ==> (#[trigger] r@[j]).0 == service_time_trace@[j].0,
        forall|j: int|
            0 <= j < r@.len() ==> (#[trigger] r@[j]).1 == binner_manager.binners@[
                binner_manager.binner_index(service_time_trace@[j].0@)].1.spec_bin(
                service_time_trace@[j].1,
            ),
        forall|j: int|
            0 <= j < r@.len() ==> (#[trigger] r@[j]).1 < binner_manager.binners@[
                binner_manager.binner_index(service_time_trace@[j].0@)].1.spec_num_bins(),
{
    let ghost orig = service_time_trace@;
    let n = service_time_trace.len();
    let mut rest = service_time_trace;
    let mut out: Vec<(String, usize)> = Vec::new();
    let mut j: usize = 0;
    while j < n
        invariant
            0 <= j <= n == orig.len(),
            rest@ =~= orig.skip(j as int),
            binner_manager.wf(),
            forall|m: int|
                0 <= m < orig.len() ==> binner_manager.has_binner((#[trigger] orig[m]).0@),
            out@.len() == j,
            forall|m: int| 0 <= m < j ==> (#[trigger] out@[m]).0 == orig[m].0,
            forall|m: int|
                0 <= m < j ==> (#[trigger] out@[m]).1 == binner_manager.binners@[
                    binner_manager.binner_index(orig[m].0@)].1.spec_bin(orig[m].1),
            forall|m: int|
                0 <= m < j ==> (#[trigger] out@[m]).1 < binner_manager.binners@[
                    binner_manager.binner_index(orig[m].0@)].1.spec_num_bins(),
        decreases n - j,
    {
        let (activity, service_time) = rest.remove(0);
        proof {
            assert(orig.skip(j as int)[0] == orig[j as int]);
            assert(rest@ =~= orig.skip(j + 1));
        }
        let binned_time = binner_manager.bin(activity.as_str(), service_time);
        out.push((activity, binned_time));
        j += 1;
    }
    out
}

/// Applies binning to every trace of a log's service time traces.
pub fn apply_binner_manager_on_service_time_traces<T: Binner>(
    service_time_traces: Vec<Vec<(String, u64)>>,
    binner_manager: &BinnerManager<T>,
) -> (r: Vec<Vec<(String, usize)>>)
    requires
        binner_manager.wf(),
        forall|t: int, j: int|
            0 <= t < service_time_traces@.len() && 0 <= j < (
            #[trigger] service_time_traces@[t])@.len() ==> binner_manager.has_binner(
                (#[trigger] service_time_traces@[t]@[j]).0@,
            ),
    ensures
        r@.len() == service_time_traces@.len(),
        forall|t: int|
            0 <= t < r@.len() ==> (#[trigger] r@[t])@.len() == service_time_traces@[t]@.len(),
        forall|t: int, j: int|
            0 <= t < r@.len() && 0 <= j < (#[trigger] r@[t])@.len() ==> (
            #[trigger] r@[t]@[j]).0 == service_time_traces@[t]@[j].0 && r@[t]@[j].1
                == binner_manager.binners@[binner_manager.binner_index(
                service_time_traces@[t]@[j].0@,
            )].1.spec_bin(service_time_traces@[t]@[j].1),
{
    let ghost orig = service_time_traces@;
    let n = service_time_traces.len();
    let mut rest = service_time_traces;
    let mut out: Vec<Vec<(String, usize)>> = Vec::new();
    let mut t: usize = 0;
    while t < n
        invariant
            0 <= t <= n == orig.len(),
            rest@ =~= orig.skip(t as int),
            binner_manager.wf(),
            forall|m: int, j: int|
                0 <= m < orig.len() && 0 <= j < (#[trigger] orig[m])@.len()
                    ==> binner_manager.has_binner((#[trigger] orig[m]@[j]).0@),
            out@.len() == t,
            forall|m: int|
                0 <= m < t ==> (#[trigger] out@[m])@.len() == orig[m]@.len(),
            forall|m: int, j: int|
                0 <= m < t && 0 <= j < (#[trigger] out@[m])@.len() ==> (#[trigger] out@[m]@[j]).0
                    == orig[m]@[j].0 && out@[m]@[j].1 == binner_manager.binners@[
                    binner_manager.binner_index(orig[m]@[j].0@)].1.spec_bin(orig[m]@[j].1),
        decreases n - t,
    {
        let trace = rest.remove(0);
        proof {
            assert(orig.skip(t as int)[0] == orig[t as int]);
            assert(rest@ =~= orig.skip(t + 1));
            assert(trace@ == orig[t as int]@);
        }
        let binned = apply_binner_manager_on_service_time_trace(trace, binner_manager);
        out.push(binned);
        t += 1;
    }
    out
}

} // verus!
