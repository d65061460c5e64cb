//! Planning of the GPU sum reduction: each pass folds blocks of 512 values
//! into one, until a single value is left.

use vstd::prelude::*;

verus! {

/// Workgroups a pass over `n` values dispatches: `ceil(n / 512)`.
pub open spec fn groups_for(n: int) -> int {
    (n + 511) / 512
}

/// Workgroup counts of the passes that reduce `n` values to one, in order;
/// no pass where `n <= 1`.
pub open spec fn pass_plan(n: u32) -> Seq<u32>
    decreases n,
{
    if n <= 1 {
        seq![]
    } else {
        let g = groups_for(n as int) as u32;
        seq![g] + pass_plan(g)
    }
}

/// Values that pass `k` of the plan for `n` reads.
pub open spec fn pass_input(n: u32, k: int) -> int {
    if k == 0 {
        n as int
    } else {
        pass_plan(n)[k - 1] as int
    }
}

/// Workgroups of one reduction pass over `n` values.
pub fn reduce_groups(n: u32) -> (groups: u32)
    requires
        n <= u32::MAX - 511,
    ensures
        groups == groups_for(n as int),
        n <= 512 * groups,
        512 * (groups - 1) < n,
{
    (n + 511) / 512
}

/// The workgroup counts of the reduction passes over `n` values.
pub fn reduce_passes(n: u32) -> (passes: Vec<u32>)
    requires
        n <= u32::MAX - 511,
    ensures
        passes@ == pass_plan(n),
        n <= 1 <==> passes@.len() == 0,
        n >= 2 ==> passes@.last() == 1,
        forall|k: int|
            0 <= k < passes@.len() ==> {
                let input = if k == 0 { n as int } else { passes@[k - 1] as int };
                &&& input <= 512 * #[trigger] passes@[k]
                &&& 512 * (passes@[k] - 1) < input
            },
{
    proof {
        lemma_plan_ends_in_one(n);
        lemma_passes_cover_inputs(n);
    }
    let mut passes: Vec<u32> = Vec::new();
    let mut m = n;
    while m > 1
        invariant
            m <= n,
            n <= u32::MAX - 511,
            passes@ + pass_plan(m) == pass_plan(n),
        decreases m,
    {
        let groups = reduce_groups(m);
        proof {
            assert(pass_plan(m) == seq![groups] + pass_plan(groups));
            assert(passes@.push(groups) + pass_plan(groups) =~= passes@ + pass_plan(m));
        }
        passes.push(groups);
        m = groups;
    }
    assert(passes@ + pass_plan(m) =~= passes@);
    assert forall|k: int| 0 <= k < passes@.len() implies {
        let input = if k == 0 { n as int } else { passes@[k - 1] as int };
        &&& input <= 512 * #[trigger] passes@[k]
        &&& 512 * (passes@[k] - 1) < input
    } by {
        assert(pass_input(n, k) <= 512 * pass_plan(n)[k]);
    }
    passes
}

/// The workgroup count of a pass is the least number of 512-value blocks
/// that hold all `n` values: no value is left out, and no block is empty.
pub proof fn lemma_groups_least_cover(n: int)
    requires
        n >= 0,
    ensures
        n <= 512 * groups_for(n),
        512 * (groups_for(n) - 1) < n,
{
}

/// For `n >= 2` values the plan is not empty and its last pass leaves one
/// value; for fewer there is nothing to reduce.
pub proof fn lemma_plan_ends_in_one(n: u32)
    ensures
        n <= 1 <==> pass_plan(n).len() == 0,
        n >= 2 ==> pass_plan(n).last() == 1,
    decreases n,
{
    if n >= 2 {
        let g = groups_for(n as int) as u32;
        lemma_plan_ends_in_one(g);
        assert(pass_plan(n) == seq![g] + pass_plan(g));
    }
}

/// Every pass dispatches just enough workgroups: each input value falls in
/// some workgroup's block of 512, and no workgroup's block is empty.
pub proof fn lemma_passes_cover_inputs(n: u32)
    ensures
        forall|k: int|
            0 <= k < pass_plan(n).len() ==> {
                &&& pass_input(n, k) <= 512 * pass_plan(n)[k]
                &&& 512 * (pass_plan(n)[k] - 1) < pass_input(n, k)
            },
    decreases n,
{
    if n >= 2 {
        let g = groups_for(n as int) as u32;
        lemma_passes_cover_inputs(g);
        assert(pass_plan(n) == seq![g] + pass_plan(g));
        assert forall|k: int| 0 <= k < pass_plan(n).len() implies {
            &&& pass_input(n, k) <= 512 * pass_plan(n)[k]
            &&& 512 * (pass_plan(n)[k] - 1) < pass_input(n, k)
        } by {
            if k >= 1 {
                assert(pass_plan(n)[k] == pass_plan(g)[k - 1]);
                assert(pass_input(n, k) == pass_input(g, k - 1));
            }
        }
    }
}

/// Each pass leaves fewer values than it reads, so the plan for any `u32`
/// count has at most four passes.
pub proof fn lemma_plan_length(n: u32)
    ensures
        pass_plan(n).len() <= 4,
        n <= 512 ==> pass_plan(n).len() <= 1,
        n <= 512 * 512 ==> pass_plan(n).len() <= 2,
        n <= 512 * 512 * 512 ==> pass_plan(n).len() <= 3,
    decreases n,
{
    if n >= 2 {
        let g = groups_for(n as int) as u32;
        lemma_plan_length(g);
        assert(pass_plan(n) == seq![g] + pass_plan(g));
    }
}

} // verus!
