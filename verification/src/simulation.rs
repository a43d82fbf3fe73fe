//! A simulation in progress: the table of prices grows by one row at a time.
//!
//! The caller computes each row of prices from the row before it and hands
//! it in; the simulation checks it, stores it, and says when the table is
//! complete.

use crate::array::array_rows;
use crate::array::row_to_vec;
use crate::array::write_cell;
use crate::array::zeros;
use crate::array::CellArray;
use crate::binary64::is_finite;
use crate::binary64::spec_is_finite;
use crate::grid::PriceGrid;
use crate::params::SimulationError;
use crate::params::SimulationParameters;
use crate::table::advance_outcome;
use crate::table::begin_outcome;
use crate::table::first_row;
use crate::table::is_table;
use crate::table::lemma_leading_finite_is;
use vstd::prelude::*;

verus! {

/// A simulation whose table is not yet complete, or just complete.
#[derive(Debug)]
pub struct Simulation {
    params: SimulationParameters,
    cells: CellArray,
    filled: usize,
}

impl Simulation {
    /// The parameters that the simulation was begun with.
    pub closed spec fn spec_parameters(&self) -> SimulationParameters {
        self.params
    }

    /// The rows computed so far, the row at time zero first.
    pub closed spec fn rows(&self) -> Seq<Seq<u64>> {
        array_rows(self.cells).take(self.filled as int)
    }

    /// The storage has one row more than there are steps, each of one cell
    /// per path, and the rows computed so far are a table of the parameters.
    pub closed spec fn wf(&self) -> bool {
        &&& self.params.steps < usize::MAX
        &&& array_rows(self.cells).len() == self.params.steps + 1
        &&& forall|t: int|
            0 <= t < array_rows(self.cells).len() ==> (#[trigger] array_rows(self.cells)[t]).len()
                == self.params.path_count
        &&& self.filled <= self.params.steps + 1
        &&& is_table(self.params, self.rows())
    }

    /// Whether every row of the table has been computed.
    pub open spec fn spec_is_complete(&self) -> bool {
        self.rows().len() == self.parameters().steps + 1
    }

    /// The rows of a well-formed simulation are a table of its parameters.
    pub proof fn lemma_rows_are_table(&self)
        requires
            self.wf(),
        ensures
            is_table(self.parameters(), self.rows()),
    {
    }

    /// Begins a simulation: checks the parameters, allocates the table and
    /// writes the row at time zero.
    pub fn begin(params: SimulationParameters) -> (r: Result<Simulation, SimulationError>)
        requires
            params.first_invalid() is None ==> params.spec_table_fits(),
        ensures
            match r {
                Ok(sim) => sim.wf() && sim.parameters() == params && begin_outcome(params) == Ok::<
                    Seq<Seq<u64>>,
                    SimulationError,
                >(sim.rows()),
                Err(e) => begin_outcome(params) == Err::<Seq<Seq<u64>>, SimulationError>(e),
            },
    {
        match params.validate() {
            Err(e) => {
                return Err(e);
            },
            Ok(_) => {},
        }
        if !is_finite(params.initial_price) {
            return Err(SimulationError::NumericOverflow { row: 0, path: 0 });
        }
        assert(1 <= params.steps + 1 <= usize::MAX && 1 <= params.path_count) by (nonlinear_arith)
            requires
                (params.steps + 1) * params.path_count * 8 <= isize::MAX,
                isize::MAX <= usize::MAX,
                params.steps >= 1,
                params.path_count >= 1,
        ;
        let mut cells = zeros(params.steps + 1, params.path_count);
        let mut i: usize = 0;
        while i < params.path_count
            invariant
                i <= params.path_count,
                array_rows(cells).len() == params.steps + 1,
                forall|t: int|
                    0 <= t < array_rows(cells).len() ==> (#[trigger] array_rows(cells)[t]).len()
                        == params.path_count,
                forall|j: int| 0 <= j < i ==> array_rows(cells)[0][j] == params.initial_price,
            decreases params.path_count - i,
        {
            write_cell(&mut cells, 0, i, params.initial_price);
            i = i + 1;
        }
        let sim = Simulation { params, cells, filled: 1 };
        proof {
            assert(sim.rows()[0] =~= first_row(params));
            assert(sim.rows() =~= seq![first_row(params)]);
        }
        Ok(sim)
    }

    /// The parameters that the simulation was begun with.
    #[verifier::when_used_as_spec(spec_parameters)]
    pub fn parameters(&self) -> (params: SimulationParameters)
        ensures
            params == self.spec_parameters(),
    {
        self.params
    }

    /// Tells whether every row of the table has been computed.
    #[verifier::when_used_as_spec(spec_is_complete)]
    pub fn is_complete(&self) -> (r: bool)
        requires
            self.wf(),
        ensures
            r == self.spec_is_complete(),
    {
        self.filled > self.params.steps
    }

    /// The number of the row that is awaited next, which is the number of
    /// rows computed so far.
    pub fn next_row(&self) -> (t: usize)
        requires
            self.wf(),
        ensures
            t == self.rows().len(),
    {
        self.filled
    }

    /// The prices of the row computed last: those from which the next row
    /// is computed.
    pub fn last_row(&self) -> (prices: Vec<u64>)
        requires
            self.wf(),
        ensures
            prices@ == self.rows().last(),
    {
        row_to_vec(&self.cells, self.filled - 1)
    }

    /// Takes the next row of prices. The row is stored where every price is
    /// finite; else the simulation ends and the first price that is not
    /// finite is reported.
    pub fn advance(self, prices: &Vec<u64>) -> (r: Result<Simulation, SimulationError>)
        requires
            self.wf(),
            !self.spec_is_complete(),
            prices@.len() == self.parameters().path_count,
        ensures
            match r {
                Ok(next) => next.wf() && next.parameters() == self.parameters() && advance_outcome(
                    self.rows(),
                    prices@,
                ) == Ok::<Seq<Seq<u64>>, SimulationError>(next.rows()),
                Err(e) => advance_outcome(self.rows(), prices@) == Err::<
                    Seq<Seq<u64>>,
                    SimulationError,
                >(e),
            },
    {
        let params = self.params;
        let filled = self.filled;
        let mut cells = self.cells;
        let ghost before = array_rows(cells);
        let mut i: usize = 0;
        while i < params.path_count
            invariant
                i <= params.path_count,
                prices@.len() == params.path_count,
                filled == self.rows().len(),
                filled <= params.steps < usize::MAX,
                filled < before.len(),
                array_rows(cells).len() == before.len(),
                forall|t: int|
                    0 <= t < array_rows(cells).len() ==> (#[trigger] array_rows(cells)[t]).len()
                        == params.path_count,
                forall|t: int| 0 <= t < filled ==> array_rows(cells)[t] == before[t],
                forall|j: int| 0 <= j < i ==> array_rows(cells)[filled as int][j] == prices@[j],
                forall|j: int| 0 <= j < i ==> spec_is_finite(#[trigger] prices@[j]),
            decreases params.path_count - i,
        {
            let price = prices[i];
            if !is_finite(price) {
                proof {
                    lemma_leading_finite_is(prices@, i as int);
                }
                return Err(SimulationError::NumericOverflow { row: filled, path: i });
            }
            write_cell(&mut cells, filled, i, price);
            i = i + 1;
        }
        let next = Simulation { params, cells, filled: filled + 1 };
        proof {
            lemma_leading_finite_is(prices@, prices@.len() as int);
            assert(array_rows(next.cells)[filled as int] =~= prices@);
            assert(next.rows() =~= self.rows().push(prices@));
        }
        Ok(next)
    }

    /// Ends a simulation whose table is complete and hands the table out.
    pub fn finish(self) -> (grid: PriceGrid)
        requires
            self.wf(),
            self.spec_is_complete(),
        ensures
            grid.wf(),
            grid.parameters() == self.parameters(),
            grid@ == self.rows(),
    {
        proof {
            assert(self.rows() =~= array_rows(self.cells));
        }
        PriceGrid::from_parts(self.params, self.cells)
    }
}

} // verus!
