//! The complete table of prices that a simulation ends with.

use crate::array::array_rows;
use crate::array::column_to_vec;
use crate::array::read_cell;
use crate::array::row_to_vec;
use crate::array::CellArray;
use crate::binary64::is_less;
use crate::binary64::scaled_value;
use crate::params::SimulationParameters;
use crate::table::is_table;
use vstd::prelude::*;

verus! {

/// `bits` is a price of the row, and no price of the row is smaller.
pub open spec fn is_minimum_of(prices: Seq<u64>, bits: u64) -> bool {
    &&& exists|i: int| 0 <= i < prices.len() && prices[i] == bits
    &&& forall|i: int|
        0 <= i < prices.len() ==> scaled_value(bits) <= scaled_value(#[trigger] prices[i])
}

/// `bits` is a price of the row, and no price of the row is larger.
pub open spec fn is_maximum_of(prices: Seq<u64>, bits: u64) -> bool {
    &&& exists|i: int| 0 <= i < prices.len() && prices[i] == bits
    &&& forall|i: int|
        0 <= i < prices.len() ==> scaled_value(#[trigger] prices[i]) <= scaled_value(bits)
}

/// The paths that a chart of `shown` paths draws: the first `shown` of them,
/// or all where there are fewer.
pub open spec fn leading_count(path_count: usize, shown: usize) -> usize {
    if shown < path_count {
        shown
    } else {
        path_count
    }
}

/// A table of one row for time zero and one for each step, each row holding
/// one price per path as the bit pattern of a double precision number.
#[derive(Debug)]
pub struct PriceGrid {
    params: SimulationParameters,
    cells: CellArray,
}

impl View for PriceGrid {
    type V = Seq<Seq<u64>>;

    /// The rows of the table, the row at time zero first.
    closed spec fn view(&self) -> Seq<Seq<u64>> {
        array_rows(self.cells)
    }
}

impl PriceGrid {
    /// The parameters of the simulation that computed the table.
    pub closed spec fn spec_parameters(&self) -> SimulationParameters {
        self.params
    }

    /// The rows are a table of the parameters, and none is missing.
    pub open spec fn wf(&self) -> bool {
        &&& is_table(self.parameters(), self@)
        &&& self@.len() == self.parameters().steps + 1
    }

    /// Makes a grid of the parameters and the storage of a simulation that
    /// has computed every row.
    pub(crate) fn from_parts(params: SimulationParameters, cells: CellArray) -> (grid: PriceGrid)
        requires
            is_table(params, array_rows(cells)),
            array_rows(cells).len() == params.steps + 1,
        ensures
            grid.wf(),
            grid.parameters() == params,
            grid@ == array_rows(cells),
    {
        PriceGrid { params, cells }
    }

    /// The parameters of the simulation that computed the table.
    #[verifier::when_used_as_spec(spec_parameters)]
    pub fn parameters(&self) -> (params: SimulationParameters)
        ensures
            params == self.spec_parameters(),
    {
        self.params
    }

    /// The number of steps: one less than the number of rows.
    pub fn steps(&self) -> (n: usize)
        requires
            self.wf(),
        ensures
            n == self.parameters().steps,
            n + 1 == self@.len(),
    {
        self.params.steps
    }

    /// The number of paths: the length of every row.
    pub fn path_count(&self) -> (n: usize)
        requires
            self.wf(),
        ensures
            n == self.parameters().path_count,
            forall|t: int| 0 <= t < self@.len() ==> (#[trigger] self@[t]).len() == n,
    {
        self.params.path_count
    }

    /// The price of path `i` at time row `t`.
    pub fn price(&self, t: usize, i: usize) -> (bits: u64)
        requires
            self.wf(),
            t <= self.parameters().steps,
            i < self.parameters().path_count,
        ensures
            bits == self@[t as int][i as int],
    {
        read_cell(&self.cells, t, i)
    }

    /// The prices of every path at time row `t`.
    pub fn row(&self, t: usize) -> (prices: Vec<u64>)
        requires
            self.wf(),
            t <= self.parameters().steps,
        ensures
            prices@ == self@[t as int],
    {
        row_to_vec(&self.cells, t)
    }

    /// The prices at the end of the horizon: the last row.
    pub fn final_row(&self) -> (prices: Vec<u64>)
        requires
            self.wf(),
        ensures
            prices@ == self@.last(),
    {
        row_to_vec(&self.cells, self.params.steps)
    }

    /// The prices of path `i` at every time, from time zero on.
    pub fn column(&self, i: usize) -> (prices: Vec<u64>)
        requires
            self.wf(),
            i < self.parameters().path_count,
        ensures
            prices@ == Seq::new(self@.len(), |t: int| self@[t][i as int]),
    {
        column_to_vec(&self.cells, i)
    }

    /// The first `shown` paths, or all where there are fewer: each the prices
    /// of one path at every time.
    pub fn leading_paths(&self, shown: usize) -> (paths: Vec<Vec<u64>>)
        requires
            self.wf(),
        ensures
            paths@.len() == leading_count(self.parameters().path_count, shown),
            forall|i: int|
                0 <= i < paths@.len() ==> (#[trigger] paths@[i])@ == Seq::new(
                    self@.len(),
                    |t: int| self@[t][i],
                ),
    {
        let count: usize = if shown < self.params.path_count {
            shown
        } else {
            self.params.path_count
        };
        let mut paths: Vec<Vec<u64>> = Vec::new();
        let mut i: usize = 0;
        while i < count
            invariant
                self.wf(),
                i <= count <= self.params.path_count,
                paths@.len() == i,
                forall|j: int|
                    0 <= j < i ==> (#[trigger] paths@[j])@ == Seq::new(
                        self@.len(),
                        |t: int| self@[t][j],
                    ),
            decreases count - i,
        {
            let path = self.column(i);
            paths.push(path);
            i = i + 1;
        }
        paths
    }

    /// The smallest price at the end of the horizon.
    pub fn final_minimum(&self) -> (bits: u64)
        requires
            self.wf(),
        ensures
            is_minimum_of(self@.last(), bits),
    {
        let last: usize = self.params.steps;
        let mut best: u64 = read_cell(&self.cells, last, 0);
        let ghost mut place: int = 0;
        let mut i: usize = 1;
        while i < self.params.path_count
            invariant
                self.wf(),
                last == self.params.steps,
                1 <= i <= self.params.path_count,
                0 <= place < i,
                self@.last()[place] == best,
                forall|j: int|
                    0 <= j < i ==> scaled_value(best) <= scaled_value(#[trigger] self@.last()[j]),
            decreases self.params.path_count - i,
        {
            let price = read_cell(&self.cells, last, i);
            if is_less(price, best) {
                best = price;
                proof {
                    place = i as int;
                }
            }
            i = i + 1;
        }
        best
    }

    /// The largest price at the end of the horizon.
    pub fn final_maximum(&self) -> (bits: u64)
        requires
            self.wf(),
        ensures
            is_maximum_of(self@.last(), bits),
    {
        let last: usize = self.params.steps;
        let mut best: u64 = read_cell(&self.cells, last, 0);
        let ghost mut place: int = 0;
        let mut i: usize = 1;
        while i < self.params.path_count
            invariant
                self.wf(),
                last == self.params.steps,
                1 <= i <= self.params.path_count,
                0 <= place < i,
                self@.last()[place] == best,
                forall|j: int|
                    0 <= j < i ==> scaled_value(#[trigger] self@.last()[j]) <= scaled_value(best),
            decreases self.params.path_count - i,
        {
            let price = read_cell(&self.cells, last, i);
            if is_less(best, price) {
                best = price;
                proof {
                    place = i as int;
                }
            }
            i = i + 1;
        }
        best
    }
}

} // verus!
