//! The table of prices as a mathematical object: a sequence of rows, each a
//! sequence of prices held as bit patterns, and the rules by which a
//! simulation builds it.

use crate::binary64::spec_is_above_zero;
use crate::binary64::spec_is_finite;
use crate::params::SimulationError;
use crate::params::SimulationParameters;
use vstd::prelude::*;

verus! {

/// The row at time zero: the initial price on every path.
pub open spec fn first_row(params: SimulationParameters) -> Seq<u64> {
    Seq::new(params.path_count as nat, |i: int| params.initial_price)
}

/// The number of prices at the start of a row that are finite: the place of
/// the first price that is not, or the row's length where all are.
pub open spec fn leading_finite(prices: Seq<u64>) -> nat
    decreases prices.len(),
{
    if prices.len() == 0 || !spec_is_finite(prices[0]) {
        0
    } else {
        1 + leading_finite(prices.drop_first())
    }
}

/// How a simulation starts: it is refused for the first parameter out of
/// range; else it fails at the first cell where the initial price is not
/// finite; else its table holds the row at time zero.
pub open spec fn begin_outcome(params: SimulationParameters) -> Result<
    Seq<Seq<u64>>,
    SimulationError,
> {
    match params.first_invalid() {
        Some(parameter) => Err(SimulationError::InvalidParameter { parameter }),
        None => if spec_is_finite(params.initial_price) {
            Ok(seq![first_row(params)])
        } else {
            Err(SimulationError::NumericOverflow { row: 0, path: 0 })
        },
    }
}

/// How a table of `rows` takes the next row of prices: the row is appended
/// where every price is finite; else the first price that is not finite is
/// reported with its place.
pub open spec fn advance_outcome(rows: Seq<Seq<u64>>, prices: Seq<u64>) -> Result<
    Seq<Seq<u64>>,
    SimulationError,
> {
    if leading_finite(prices) == prices.len() {
        Ok(rows.push(prices))
    } else {
        Err(
            SimulationError::NumericOverflow {
                row: rows.len() as usize,
                path: leading_finite(prices) as usize,
            },
        )
    }
}

/// `rows` is a table, whole or in part, of a simulation with `params`: the
/// parameters are accepted, the table has at least the row at time zero and
/// at most one row more than there are steps, every row has one price per
/// path, the first row holds the initial price, and every price is finite.
pub open spec fn is_table(params: SimulationParameters, rows: Seq<Seq<u64>>) -> bool {
    &&& params.first_invalid() is None
    &&& 1 <= rows.len() <= params.steps + 1
    &&& forall|t: int| 0 <= t < rows.len() ==> (#[trigger] rows[t]).len() == params.path_count
    &&& rows[0] == first_row(params)
    &&& forall|t: int, i: int|
        0 <= t < rows.len() && 0 <= i < params.path_count ==> spec_is_finite(#[trigger] rows[t][i])
}

/// What `leading_finite` counts: every price before that place is finite, and
/// the price at that place, if there is one, is not.
pub proof fn lemma_leading_finite(prices: Seq<u64>)
    ensures
        leading_finite(prices) <= prices.len(),
        forall|j: int| 0 <= j < leading_finite(prices) ==> spec_is_finite(#[trigger] prices[j]),
        leading_finite(prices) < prices.len() ==> !spec_is_finite(
            prices[leading_finite(prices) as int],
        ),
    decreases prices.len(),
{
    if prices.len() == 0 || !spec_is_finite(prices[0]) {
    } else {
        let rest = prices.drop_first();
        lemma_leading_finite(rest);
        assert forall|j: int| 0 <= j < leading_finite(prices) implies spec_is_finite(
            #[trigger] prices[j],
        ) by {
            if j > 0 {
                assert(prices[j] == rest[j - 1]);
            }
        }
        if leading_finite(prices) < prices.len() {
            assert(prices[leading_finite(prices) as int] == rest[leading_finite(rest) as int]);
        }
    }
}

/// The only place with finite prices before it and a price that is not finite
/// at it is the one that `leading_finite` gives; a row of finite prices gives
/// its length.
pub proof fn lemma_leading_finite_is(prices: Seq<u64>, n: int)
    requires
        0 <= n <= prices.len(),
        forall|j: int| 0 <= j < n ==> spec_is_finite(#[trigger] prices[j]),
        n < prices.len() ==> !spec_is_finite(prices[n]),
    ensures
        leading_finite(prices) == n,
{
    lemma_leading_finite(prices);
    let m = leading_finite(prices) as int;
    if m < n {
        assert(spec_is_finite(prices[m]));
    } else if n < m {
        assert(spec_is_finite(prices[n]));
    }
}

/// The table that a run ends with: the simulation is begun with `params` and
/// takes the rows of `supplied` one after the other, until one of them
/// fails.
pub open spec fn run_outcome(params: SimulationParameters, supplied: Seq<Seq<u64>>) -> Result<
    Seq<Seq<u64>>,
    SimulationError,
>
    decreases supplied.len(),
{
    if supplied.len() == 0 {
        begin_outcome(params)
    } else {
        match run_outcome(params, supplied.drop_last()) {
            Ok(rows) => advance_outcome(rows, supplied.last()),
            Err(e) => Err(e),
        }
    }
}

/// Every row of `supplied` has one price per path, and there are no more
/// rows than steps.
pub open spec fn is_supply(params: SimulationParameters, supplied: Seq<Seq<u64>>) -> bool {
    &&& supplied.len() <= params.steps
    &&& forall|t: int|
        0 <= t < supplied.len() ==> (#[trigger] supplied[t]).len() == params.path_count
}

/// A run that succeeds ends with a table: the row at time zero, then the rows
/// that were supplied.
pub proof fn lemma_run_gives_table(params: SimulationParameters, supplied: Seq<Seq<u64>>)
    requires
        is_supply(params, supplied),
        run_outcome(params, supplied) is Ok,
    ensures
        is_table(params, run_outcome(params, supplied)->Ok_0),
        run_outcome(params, supplied)->Ok_0 == seq![first_row(params)] + supplied,
    decreases supplied.len(),
{
    let rows = run_outcome(params, supplied)->Ok_0;
    if supplied.len() == 0 {
        assert(rows =~= seq![first_row(params)] + supplied);
    } else {
        let before = supplied.drop_last();
        lemma_run_gives_table(params, before);
        let earlier = run_outcome(params, before)->Ok_0;
        lemma_leading_finite(supplied.last());
        assert(rows == earlier.push(supplied.last()));
        assert(rows =~= seq![first_row(params)] + supplied);
    }
}

/// The shape of a complete table: a run that was supplied one row for each
/// step and succeeds ends with one row more than there are steps, and every
/// row holds one price per path.
pub proof fn lemma_complete_table_shape(params: SimulationParameters, supplied: Seq<Seq<u64>>)
    requires
        is_supply(params, supplied),
        supplied.len() == params.steps,
        run_outcome(params, supplied) is Ok,
    ensures
        run_outcome(params, supplied)->Ok_0.len() == params.steps + 1,
        forall|t: int|
            0 <= t <= params.steps ==> (#[trigger] run_outcome(params, supplied)->Ok_0[t]).len()
                == params.path_count,
{
    lemma_run_gives_table(params, supplied);
}

/// The first row of a table holds the initial price on every path.
pub proof fn lemma_first_row_is_initial_price(params: SimulationParameters, rows: Seq<Seq<u64>>)
    requires
        is_table(params, rows),
    ensures
        rows[0].len() == params.path_count,
        forall|i: int| 0 <= i < params.path_count ==> rows[0][i] == params.initial_price,
{
}

/// Every price of a table is finite.
pub proof fn lemma_prices_are_finite(params: SimulationParameters, rows: Seq<Seq<u64>>)
    requires
        is_table(params, rows),
    ensures
        forall|t: int, i: int|
            0 <= t < rows.len() && 0 <= i < params.path_count ==> spec_is_finite(
                #[trigger] rows[t][i],
            ),
{
}

/// Where the parameters lie in the model's domain, every price of the first
/// row is above zero.
pub proof fn lemma_first_row_is_above_zero(params: SimulationParameters, rows: Seq<Seq<u64>>)
    requires
        is_table(params, rows),
        params.spec_in_domain(),
    ensures
        forall|i: int| 0 <= i < params.path_count ==> spec_is_above_zero(#[trigger] rows[0][i]),
{
}

/// A table is what the run with its parameters and its rows after the first
/// ends with: nothing else enters it.
pub proof fn lemma_table_is_run(params: SimulationParameters, rows: Seq<Seq<u64>>)
    requires
        is_table(params, rows),
    ensures
        run_outcome(params, rows.skip(1)) == Ok::<Seq<Seq<u64>>, SimulationError>(rows),
    decreases rows.len(),
{
    let supplied = rows.skip(1);
    assert(spec_is_finite(rows[0][0]));
    if rows.len() == 1 {
        assert(rows =~= seq![first_row(params)]);
    } else {
        let earlier = rows.drop_last();
        assert(earlier[0] == rows[0]);
        lemma_table_is_run(params, earlier);
        assert(supplied.drop_last() =~= earlier.skip(1));
        assert(supplied.last() == rows.last());
        lemma_leading_finite_is(rows.last(), rows.last().len() as int);
        assert(earlier.push(rows.last()) =~= rows);
    }
}

/// The parameters and the rows that were supplied decide the table: two
/// tables of the same parameters that agree after the first row are the
/// same table.
pub proof fn lemma_same_supply_same_table(
    params: SimulationParameters,
    first: Seq<Seq<u64>>,
    second: Seq<Seq<u64>>,
)
    requires
        is_table(params, first),
        is_table(params, second),
        first.skip(1) == second.skip(1),
    ensures
        first == second,
{
    lemma_table_is_run(params, first);
    lemma_table_is_run(params, second);
}

} // verus!
