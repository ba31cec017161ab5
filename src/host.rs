use vstd::prelude::*;
use crate::grid::{grid_fits, plan, GridPlan, PlanError};

verus! {

/// Relies on num_cpus::get, the number of logical CPUs this process may use;
/// its documentation promises at least 1.
#[verifier::external_body]
fn host_parallelism() -> (r: usize)
    ensures
        r >= 1,
{
    num_cpus::get()
}

/// Plans the grid with one worker per logical CPU of the host. The worker
/// count depends on the machine: the plan is refused with `TooManyWorkers`
/// when the host has more logical CPUs than `h_divs`, as `plan` refuses it.
pub fn plan_for_host(h_divs: u64, v_divs: u64) -> (r: Result<GridPlan, PlanError>)
    ensures
        (h_divs == 0 || v_divs == 0) <==> r == Err::<GridPlan, PlanError>(
            PlanError::ZeroDivisions,
        ),
        r != Err::<GridPlan, PlanError>(PlanError::ZeroWorkers),
        r == Err::<GridPlan, PlanError>(PlanError::TooManyWorkers) ==> h_divs > 0 && v_divs > 0,
        r == Err::<GridPlan, PlanError>(PlanError::TooLarge) ==> h_divs > 0 && v_divs > 0
            && !grid_fits(h_divs as nat, v_divs as nat),
        (h_divs > 0 && v_divs > 0 && grid_fits(h_divs as nat, v_divs as nat)) ==> (r is Ok
            || r == Err::<GridPlan, PlanError>(PlanError::TooManyWorkers)),
        r is Ok ==> {
            let p = r->Ok_0;
            &&& p.wf()
            &&& p.h_divs == h_divs
            &&& p.v_divs == v_divs
            &&& p.workers >= 1
            &&& p.workers <= h_divs
        },
{
    let workers = host_parallelism();
    let r = plan(h_divs, v_divs, workers);
    proof {
        if r is Err {
            let e = r->Err_0;
            assert(e == PlanError::ZeroDivisions || e == PlanError::ZeroWorkers || e
                == PlanError::TooManyWorkers || e == PlanError::TooLarge);
        }
    }
    r
}

} // verus!
