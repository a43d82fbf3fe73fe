//! The parameters of a simulation and the ways in which a simulation fails.

use crate::binary64::is_above_zero;
use crate::binary64::is_below_zero;
use crate::binary64::is_finite;
use crate::binary64::is_zero;
use crate::binary64::spec_is_above_zero;
use crate::binary64::spec_is_below_zero;
use crate::binary64::spec_is_finite;
use crate::binary64::spec_is_zero;
use crate::binary64::spec_truncate_to_size;
use crate::binary64::truncate_to_size;
use vstd::prelude::*;

verus! {

/// What a simulation is run with. The four numbers that are not counts are
/// held as the bit patterns of double precision numbers.
#[derive(Clone, Copy, Debug, PartialEq, Eq)]
pub struct SimulationParameters {
    /// The price at time zero.
    pub initial_price: u64,
    /// The number of time increments; the table has one row more.
    pub steps: usize,
    /// The simulated time in years.
    pub horizon: u64,
    /// The number of independent paths.
    pub path_count: usize,
    /// The volatility per year.
    pub volatility: u64,
    /// The drift rate per year.
    pub risk_free_rate: u64,
}

/// A parameter that a simulation can refuse.
#[derive(Clone, Copy, Debug, PartialEq, Eq, Structural)]
pub enum Parameter {
    /// The number of steps, which is at least one.
    Steps,
    /// The number of paths, which is at least one.
    PathCount,
    /// The horizon, which is above zero.
    Horizon,
    /// The volatility, which is not below zero.
    Volatility,
}

/// Why a simulation stopped without a table.
#[derive(Clone, Copy, Debug, PartialEq, Eq, Structural)]
pub enum SimulationError {
    /// A parameter is outside its range.
    InvalidParameter { parameter: Parameter },
    /// The price in row `row` of path `path` is not finite.
    NumericOverflow { row: usize, path: usize },
}

impl SimulationParameters {
    /// The first parameter out of range, in the order steps, path count,
    /// horizon, volatility: a count below one, a horizon that is not above
    /// zero, a volatility below zero.
    pub open spec fn first_invalid(&self) -> Option<Parameter> {
        if self.steps < 1 {
            Some(Parameter::Steps)
        } else if self.path_count < 1 {
            Some(Parameter::PathCount)
        } else if spec_is_zero(self.horizon) || spec_is_below_zero(self.horizon) {
            Some(Parameter::Horizon)
        } else if spec_is_below_zero(self.volatility) {
            Some(Parameter::Volatility)
        } else {
            None
        }
    }

    /// The parameters lie in the model's domain: both counts are at least
    /// one, price and horizon are finite and above zero, the volatility is
    /// finite and not below zero, and the rate is finite.
    pub open spec fn spec_in_domain(&self) -> bool {
        &&& self.steps >= 1
        &&& self.path_count >= 1
        &&& spec_is_finite(self.initial_price) && spec_is_above_zero(self.initial_price)
        &&& spec_is_finite(self.horizon) && spec_is_above_zero(self.horizon)
        &&& spec_is_finite(self.volatility) && !spec_is_below_zero(self.volatility)
        &&& spec_is_finite(self.risk_free_rate)
    }

    /// A table of one row more than `steps`, each of `path_count` cells of
    /// eight bytes, does not exceed what one allocation can hold.
    pub open spec fn spec_table_fits(&self) -> bool {
        (self.steps + 1) * self.path_count * 8 <= isize::MAX
    }

    /// Makes parameters of six numbers, each given as its bit pattern, in
    /// the order price, steps, horizon, paths, volatility, rate. The two
    /// counts are the whole parts of their numbers.
    pub fn from_numbers(
        initial_price: u64,
        steps: u64,
        horizon: u64,
        path_count: u64,
        volatility: u64,
        risk_free_rate: u64,
    ) -> (params: SimulationParameters)
        ensures
            params == (SimulationParameters {
                initial_price,
                steps: spec_truncate_to_size(steps),
                horizon,
                path_count: spec_truncate_to_size(path_count),
                volatility,
                risk_free_rate,
            }),
    {
        SimulationParameters {
            initial_price,
            steps: truncate_to_size(steps),
            horizon,
            path_count: truncate_to_size(path_count),
            volatility,
            risk_free_rate,
        }
    }

    /// Checks the parameters against their ranges and names the first that
    /// is outside.
    pub fn validate(&self) -> (r: Result<(), SimulationError>)
        ensures
            r == match self.first_invalid() {
                Some(parameter) => Err::<(), SimulationError>(
                    SimulationError::InvalidParameter { parameter },
                ),
                None => Ok(()),
            },
    {
        if self.steps < 1 {
            Err(SimulationError::InvalidParameter { parameter: Parameter::Steps })
        } else if self.path_count < 1 {
            Err(SimulationError::InvalidParameter { parameter: Parameter::PathCount })
        } else if is_zero(self.horizon) || is_below_zero(self.horizon) {
            Err(SimulationError::InvalidParameter { parameter: Parameter::Horizon })
        } else if is_below_zero(self.volatility) {
            Err(SimulationError::InvalidParameter { parameter: Parameter::Volatility })
        } else {
            Ok(())
        }
    }

    /// Tells whether the parameters lie in the model's domain.
    #[verifier::when_used_as_spec(spec_in_domain)]
    pub fn in_domain(&self) -> (r: bool)
        ensures
            r == self.spec_in_domain(),
    {
        self.steps >= 1 && self.path_count >= 1 && is_finite(self.initial_price) && is_above_zero(
            self.initial_price,
        ) && is_finite(self.horizon) && is_above_zero(self.horizon) && is_finite(self.volatility)
            && !is_below_zero(self.volatility) && is_finite(self.risk_free_rate)
    }

    /// Tells whether a table for these parameters can be allocated.
    #[verifier::when_used_as_spec(spec_table_fits)]
    pub fn table_fits(&self) -> (r: bool)
        ensures
            r == self.spec_table_fits(),
    {
        let rows: usize = match self.steps.checked_add(1) {
            Some(rows) => rows,
            None => {
                assert(self.spec_table_fits() <==> self.path_count == 0) by (nonlinear_arith)
                    requires
                        self.steps + 1 > usize::MAX,
                        usize::MAX >= isize::MAX,
                        self.path_count >= 0,
                        self.spec_table_fits() <==> (self.steps + 1) * self.path_count * 8
                            <= isize::MAX,
                ;
                return self.path_count == 0;
            },
        };
        let cells: usize = match rows.checked_mul(self.path_count) {
            Some(cells) => cells,
            None => {
                assert(rows * self.path_count * 8 > isize::MAX) by (nonlinear_arith)
                    requires
                        rows * self.path_count > usize::MAX,
                        usize::MAX >= isize::MAX,
                ;
                return false;
            },
        };
        match cells.checked_mul(8) {
            Some(bytes) => bytes <= isize::MAX as usize,
            None => false,
        }
    }
}

/// Parameters in the model's domain are refused for no parameter.
pub proof fn lemma_domain_is_accepted(params: SimulationParameters)
    requires
        params.spec_in_domain(),
    ensures
        params.first_invalid() is None,
{
}

} // verus!
