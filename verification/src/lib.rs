//! Monte Carlo simulation of asset prices under geometric Brownian motion.
//!
//! A simulation fills a table of prices, one row per point in time and one
//! column per path. The arithmetic on prices is done by the caller in double
//! precision; this library holds every number as the 64-bit pattern of a
//! double, checks the parameters, keeps the order of the rows, refuses a
//! price that is not finite, and gives access to the finished table.

mod array;
pub mod binary64;
pub mod grid;
pub mod monte_carlo;
pub mod params;
pub mod simulation;
pub mod table;

pub use crate::grid::PriceGrid;
pub use crate::params::Parameter;
pub use crate::params::SimulationError;
pub use crate::params::SimulationParameters;
pub use crate::simulation::Simulation;
