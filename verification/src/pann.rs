//! The plasticity schedule of the corrective weights.
use vstd::prelude::*;

verus! {

/// How the learning rate of a corrective weight falls with its use.
#[derive(Debug, Clone, Copy, PartialEq, Eq, Structural)]
pub enum PlasticitySchedule {
    /// Every weight keeps its full learning rate.
    NoDecay,
    /// The rate halves with each access and drops to zero after
    /// `freeze_after` accesses.
    PatentHalving { freeze_after: u32 },
}

/// How many times the learning rate of a weight accessed `access_count` times
/// has been halved: `Some(0)` for the full rate, `Some(n)` for a rate of
/// `2^-n`, and `None` for a frozen weight.
pub open spec fn plasticity_halvings_spec(schedule: PlasticitySchedule, access_count: u32) -> Option<u32> {
    match schedule {
        PlasticitySchedule::NoDecay => Some(0),
        PlasticitySchedule::PatentHalving { freeze_after } => {
            if access_count >= freeze_after {
                None
            } else {
                Some(access_count)
            }
        },
    }
}

/// The learning-rate halvings of a weight under the schedule.
pub fn plasticity_halvings(schedule: PlasticitySchedule, access_count: u32) -> (r: Option<u32>)
    ensures
        r == plasticity_halvings_spec(schedule, access_count),
{
    match schedule {
        PlasticitySchedule::NoDecay => Some(0),
        PlasticitySchedule::PatentHalving { freeze_after } => {
            if access_count >= freeze_after {
                None
            } else {
                Some(access_count)
            }
        },
    }
}

/// Position of the weight of (`input`, `interval`, `output`) among the
/// weights of a model with `input_count` inputs, `interval_count` intervals
/// and `output_count` outputs, laid out input-major; `None` when an index is
/// out of range.
pub fn weight_slot(
    input_count: usize,
    interval_count: usize,
    output_count: usize,
    input: usize,
    interval: usize,
    output: usize,
) -> (r: Option<usize>)
    requires
        input_count * interval_count * output_count <= usize::MAX,
    ensures
        (input < input_count && interval < interval_count && output < output_count) ==> r == Some(
            ((input * interval_count + interval) * output_count + output) as usize,
        ),
        !(input < input_count && interval < interval_count && output < output_count) ==> r is None,
        r matches Some(i) ==> i < input_count * interval_count * output_count,
{
    if input >= input_count || interval >= interval_count || output >= output_count {
        None
    } else {
        proof {
            lemma_slot_in_range(
                input as int,
                interval as int,
                output as int,
                input_count as int,
                interval_count as int,
                output_count as int,
            );
        }
        Some((input * interval_count + interval) * output_count + output)
    }
}

proof fn lemma_slot_in_range(a: int, b: int, c: int, na: int, nb: int, nc: int)
    requires
        0 <= a < na,
        0 <= b < nb,
        0 <= c < nc,
    ensures
        0 <= a * nb <= a * nb + b < na * nb,
        na * nb <= na * nb * nc,
        (a * nb + b) * nc + c < na * nb * nc,
        0 <= (a * nb + b) * nc,
{
    assert(0 <= a * nb) by (nonlinear_arith)
        requires
            0 <= a,
            0 <= nb,
    ;
    assert(na * nb <= na * nb * nc) by (nonlinear_arith)
        requires
            0 <= na,
            0 <= nb,
            1 <= nc,
    ;
    assert(a * nb + b < na * nb) by (nonlinear_arith)
        requires
            0 <= a < na,
            0 <= b < nb,
    ;
    assert((a * nb + b) * nc + c < na * nb * nc) by (nonlinear_arith)
        requires
            0 <= a * nb + b < na * nb,
            0 <= c < nc,
    ;
    assert(0 <= (a * nb + b) * nc) by (nonlinear_arith)
        requires
            0 <= a * nb + b,
            0 <= nc,
    ;
}

} // verus!
