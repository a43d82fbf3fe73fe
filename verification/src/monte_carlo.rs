//! A whole simulation in one call: the caller gives the rule by which a price
//! follows from the price one step before, and the table is filled row by
//! row, path by path.

use crate::binary64::is_finite;
use crate::binary64::spec_is_above_zero;
use crate::binary64::spec_is_finite;
use crate::grid::PriceGrid;
use crate::params::SimulationError;
use crate::params::SimulationParameters;
use crate::simulation::Simulation;
use crate::table::begin_outcome;
use crate::table::is_table;
use crate::table::lemma_leading_finite_is;
use vstd::prelude::*;

verus! {

/// Every price after the first row is one that `step` gives when it is
/// called with the price's row, its path, and the price one row before on
/// the same path.
pub open spec fn follows_step<F: Fn(usize, usize, u64) -> u64>(
    step: F,
    rows: Seq<Seq<u64>>,
) -> bool {
    forall|t: int, i: int|
        1 <= t < rows.len() && 0 <= i < rows[t].len() ==> call_ensures(
            step,
            (t as usize, i as usize, rows[t - 1][i]),
            #[trigger] rows[t][i],
        )
}

/// Row `rows.len()` began with the prices `prefix`, each given by `step` and
/// finite, and then `step` gave `price`, which is not finite.
pub open spec fn breaks_after<F: Fn(usize, usize, u64) -> u64>(
    step: F,
    rows: Seq<Seq<u64>>,
    prefix: Seq<u64>,
    price: u64,
) -> bool {
    &&& prefix.len() < rows.last().len()
    &&& forall|i: int|
        0 <= i < prefix.len() ==> spec_is_finite(#[trigger] prefix[i]) && call_ensures(
            step,
            (rows.len() as usize, i as usize, rows.last()[i]),
            prefix[i],
        )
    &&& call_ensures(
        step,
        (rows.len() as usize, prefix.len() as usize, rows.last()[prefix.len() as int]),
        price,
    )
    &&& !spec_is_finite(price)
}

/// Simulates every path over every step. The row at time zero holds the
/// initial price; each later price is what `step` gives for the price one
/// step before on the same path. The first price that is not finite ends the
/// simulation.
pub fn black_scholes_merton_mc<F: Fn(usize, usize, u64) -> u64>(
    params: SimulationParameters,
    step: F,
) -> (r: Result<PriceGrid, SimulationError>)
    requires
        params.first_invalid() is None ==> params.spec_table_fits(),
        forall|t: usize, i: usize, previous: u64| call_requires(step, (t, i, previous)),
    ensures
        match r {
            Ok(grid) => {
                &&& grid.wf()
                &&& grid.parameters() == params
                &&& follows_step(step, grid@)
            },
            Err(e) => {
                ||| begin_outcome(params) == Err::<Seq<Seq<u64>>, SimulationError>(e)
                ||| exists|rows: Seq<Seq<u64>>, prefix: Seq<u64>, price: u64|
                    {
                        &&& is_table(params, rows)
                        &&& rows.len() <= params.steps
                        &&& follows_step(step, rows)
                        &&& breaks_after(step, rows, prefix, price)
                        &&& e == (SimulationError::NumericOverflow {
                            row: rows.len() as usize,
                            path: prefix.len() as usize,
                        })
                    }
            },
        },
{
    let mut simulation = match Simulation::begin(params) {
        Ok(simulation) => simulation,
        Err(e) => {
            return Err(e);
        },
    };
    while !simulation.is_complete()
        invariant
            simulation.wf(),
            simulation.parameters() == params,
            follows_step(step, simulation.rows()),
            forall|t: usize, i: usize, previous: u64| call_requires(step, (t, i, previous)),
        decreases params.steps + 1 - simulation.rows().len(),
    {
        proof {
            simulation.lemma_rows_are_table();
        }
        let t: usize = simulation.next_row();
        let previous: Vec<u64> = simulation.last_row();
        let mut prices: Vec<u64> = Vec::new();
        let mut i: usize = 0;
        while i < params.path_count
            invariant
                i <= params.path_count,
                previous@.len() == params.path_count,
                previous@ == simulation.rows().last(),
                t == simulation.rows().len(),
                prices@.len() == i,
                forall|j: int|
                    0 <= j < i ==> spec_is_finite(#[trigger] prices@[j]) && call_ensures(
                        step,
                        (t, j as usize, previous@[j]),
                        prices@[j],
                    ),
                forall|row: usize, path: usize, before: u64|
                    call_requires(step, (row, path, before)),
                is_table(params, simulation.rows()),
                simulation.rows().len() <= params.steps,
                follows_step(step, simulation.rows()),
            decreases params.path_count - i,
        {
            let price: u64 = step(t, i, previous[i]);
            if !is_finite(price) {
                proof {
                    assert(breaks_after(step, simulation.rows(), prices@, price));
                }
                return Err(SimulationError::NumericOverflow { row: t, path: i });
            }
            prices.push(price);
            i = i + 1;
        }
        proof {
            lemma_leading_finite_is(prices@, prices@.len() as int);
        }
        let ghost before = simulation.rows();
        simulation = match simulation.advance(&prices) {
            Ok(next) => next,
            Err(e) => {
                // Not reached: every price of the row was found finite.
                return Err(e);
            },
        };
        proof {
            assert(simulation.rows() == before.push(prices@));
            let after = simulation.rows();
            assert forall|t: int, i: int|
                1 <= t < after.len() && 0 <= i < after[t].len() implies call_ensures(
                step,
                (t as usize, i as usize, after[t - 1][i]),
                #[trigger] after[t][i],
            ) by {
                if t < before.len() {
                    assert(after[t] == before[t]);
                    assert(after[t - 1] == before[t - 1]);
                }
            }
        }
    }
    Ok(simulation.finish())
}

/// `step` gives at most one price for a row, a path and a price before:
/// nothing but its arguments decides.
pub open spec fn is_determined<F: Fn(usize, usize, u64) -> u64>(step: F) -> bool {
    forall|t: usize, i: usize, previous: u64, first: u64, second: u64|
        call_ensures(step, (t, i, previous), first) && call_ensures(step, (t, i, previous), second)
            ==> first == second
}

/// `step` gives at most one price for a row and a price before, whatever
/// the path: no draw that differs from path to path enters it.
pub open spec fn ignores_path<F: Fn(usize, usize, u64) -> u64>(step: F) -> bool {
    forall|t: usize, i: usize, j: usize, previous: u64, first: u64, second: u64|
        call_ensures(step, (t, i, previous), first) && call_ensures(step, (t, j, previous), second)
            ==> first == second
}

/// Row `t` of two tables of the same parameters that follow the same
/// determined rule is the same in both.
proof fn lemma_same_step_same_row<F: Fn(usize, usize, u64) -> u64>(
    step: F,
    params: SimulationParameters,
    first: Seq<Seq<u64>>,
    second: Seq<Seq<u64>>,
    t: int,
)
    requires
        is_determined(step),
        is_table(params, first),
        is_table(params, second),
        follows_step(step, first),
        follows_step(step, second),
        0 <= t < first.len(),
        t < second.len(),
    ensures
        first[t] == second[t],
    decreases t,
{
    if t > 0 {
        lemma_same_step_same_row(step, params, first, second, t - 1);
        assert forall|i: int| 0 <= i < params.path_count implies first[t][i] == second[t][i] by {
            assert(call_ensures(step, (t as usize, i as usize, first[t - 1][i]), first[t][i]));
            assert(call_ensures(step, (t as usize, i as usize, second[t - 1][i]), second[t][i]));
        }
        assert(first[t] =~= second[t]);
    }
}

/// Two simulations with the same parameters and the same rule, where nothing
/// but its arguments decides what the rule gives, end with the same table.
pub proof fn lemma_same_step_same_table<F: Fn(usize, usize, u64) -> u64>(
    step: F,
    params: SimulationParameters,
    first: Seq<Seq<u64>>,
    second: Seq<Seq<u64>>,
)
    requires
        is_determined(step),
        is_table(params, first),
        is_table(params, second),
        follows_step(step, first),
        follows_step(step, second),
        first.len() == second.len(),
    ensures
        first == second,
{
    assert forall|t: int| 0 <= t < first.len() implies first[t] == second[t] by {
        lemma_same_step_same_row(step, params, first, second, t);
    }
    assert(first =~= second);
}

/// Row `t` of a table that follows a rule which gives one price whatever the
/// path holds one price on all its paths.
proof fn lemma_row_collapses<F: Fn(usize, usize, u64) -> u64>(
    step: F,
    params: SimulationParameters,
    rows: Seq<Seq<u64>>,
    t: int,
)
    requires
        ignores_path(step),
        is_table(params, rows),
        follows_step(step, rows),
        0 <= t < rows.len(),
    ensures
        forall|i: int, j: int|
            0 <= i < params.path_count && 0 <= j < params.path_count ==> rows[t][i] == rows[t][j],
    decreases t,
{
    if t > 0 {
        lemma_row_collapses(step, params, rows, t - 1);
        assert forall|i: int, j: int|
            0 <= i < params.path_count && 0 <= j < params.path_count implies rows[t][i]
            == rows[t][j] by {
            assert(rows[t - 1][i] == rows[t - 1][j]);
            assert(call_ensures(step, (t as usize, i as usize, rows[t - 1][i]), rows[t][i]));
            assert(call_ensures(step, (t as usize, j as usize, rows[t - 1][j]), rows[t][j]));
        }
    }
}

/// Where the rule gives one price whatever the path, as it does where no
/// draw enters it, every row of a table that follows it holds one price on
/// all its paths.
pub proof fn lemma_paths_collapse<F: Fn(usize, usize, u64) -> u64>(
    step: F,
    params: SimulationParameters,
    rows: Seq<Seq<u64>>,
)
    requires
        ignores_path(step),
        is_table(params, rows),
        follows_step(step, rows),
    ensures
        forall|t: int, i: int, j: int|
            #![trigger rows[t][i], rows[t][j]]
            0 <= t < rows.len() && 0 <= i < params.path_count && 0 <= j < params.path_count
                ==> rows[t][i] == rows[t][j],
{
    assert forall|t: int, i: int, j: int|
        #![trigger rows[t][i], rows[t][j]]
        0 <= t < rows.len() && 0 <= i < params.path_count && 0 <= j < params.path_count
        implies rows[t][i] == rows[t][j] by {
        lemma_row_collapses(step, params, rows, t);
    }
}

/// `step` gives a price above zero for every price above zero before it.
pub open spec fn keeps_above_zero<F: Fn(usize, usize, u64) -> u64>(step: F) -> bool {
    forall|t: usize, i: usize, previous: u64, price: u64|
        spec_is_above_zero(previous) && call_ensures(step, (t, i, previous), price)
            ==> spec_is_above_zero(price)
}

/// Every price of row `t` is finite and above zero, under the conditions of
/// `lemma_prices_stay_above_zero`.
proof fn lemma_row_stays_above_zero<F: Fn(usize, usize, u64) -> u64>(
    step: F,
    params: SimulationParameters,
    rows: Seq<Seq<u64>>,
    t: int,
)
    requires
        keeps_above_zero(step),
        params.spec_in_domain(),
        is_table(params, rows),
        follows_step(step, rows),
        0 <= t < rows.len(),
    ensures
        forall|i: int|
            0 <= i < params.path_count ==> spec_is_finite(#[trigger] rows[t][i])
                && spec_is_above_zero(rows[t][i]),
    decreases t,
{
    if t > 0 {
        lemma_row_stays_above_zero(step, params, rows, t - 1);
        assert forall|i: int| 0 <= i < params.path_count implies spec_is_finite(
            #[trigger] rows[t][i],
        ) && spec_is_above_zero(rows[t][i]) by {
            assert(spec_is_above_zero(rows[t - 1][i]));
            assert(call_ensures(step, (t as usize, i as usize, rows[t - 1][i]), rows[t][i]));
        }
    }
}

/// Where the parameters lie in the model's domain and the rule gives a price
/// above zero for every price above zero, every price of a table that
/// follows the rule is finite and above zero.
pub proof fn lemma_prices_stay_above_zero<F: Fn(usize, usize, u64) -> u64>(
    step: F,
    params: SimulationParameters,
    rows: Seq<Seq<u64>>,
)
    requires
        keeps_above_zero(step),
        params.spec_in_domain(),
        is_table(params, rows),
        follows_step(step, rows),
    ensures
        forall|t: int, i: int|
            0 <= t < rows.len() && 0 <= i < params.path_count ==> spec_is_finite(
                #[trigger] rows[t][i],
            ) && spec_is_above_zero(rows[t][i]),
{
    assert forall|t: int, i: int|
        0 <= t < rows.len() && 0 <= i < params.path_count implies spec_is_finite(
        #[trigger] rows[t][i],
    ) && spec_is_above_zero(rows[t][i]) by {
        lemma_row_stays_above_zero(step, params, rows, t);
    }
}

} // verus!
