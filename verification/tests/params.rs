use black_scholes_mc::Parameter;
use black_scholes_mc::SimulationError;
use black_scholes_mc::SimulationParameters;

fn parameters(
    initial_price: f64,
    steps: usize,
    horizon: f64,
    path_count: usize,
    volatility: f64,
    risk_free_rate: f64,
) -> SimulationParameters {
    SimulationParameters {
        initial_price: initial_price.to_bits(),
        steps,
        horizon: horizon.to_bits(),
        path_count,
        volatility: volatility.to_bits(),
        risk_free_rate: risk_free_rate.to_bits(),
    }
}

fn refused(parameter: Parameter) -> Result<(), SimulationError> {
    Err(SimulationError::InvalidParameter { parameter })
}

#[test]
fn parameters_in_range_are_accepted() {
    assert_eq!(parameters(125.0, 100, 1.0, 1_000_000, 0.17, 0.23).validate(), Ok(()));
    assert_eq!(parameters(100.0, 1, 1.0, 1, 0.0, 0.05).validate(), Ok(()));
    assert_eq!(parameters(100.0, 1, 1.0, 1, -0.0, -0.05).validate(), Ok(()));
    assert_eq!(parameters(100.0, 1, 5e-324, 1, 0.2, 0.05).validate(), Ok(()));
}

#[test]
fn zero_steps_are_refused() {
    assert_eq!(parameters(100.0, 0, 1.0, 1, 0.0, 0.05).validate(), refused(Parameter::Steps));
}

#[test]
fn zero_paths_are_refused() {
    assert_eq!(parameters(100.0, 1, 1.0, 0, 0.0, 0.05).validate(), refused(Parameter::PathCount));
}

#[test]
fn a_horizon_not_above_zero_is_refused() {
    for horizon in [0.0, -0.0, -1.0, -5e-324, f64::NEG_INFINITY] {
        assert_eq!(
            parameters(100.0, 1, horizon, 1, 0.0, 0.05).validate(),
            refused(Parameter::Horizon),
            "{horizon}"
        );
    }
}

#[test]
fn a_volatility_below_zero_is_refused() {
    for volatility in [-0.17, -5e-324, f64::NEG_INFINITY] {
        assert_eq!(
            parameters(100.0, 1, 1.0, 1, volatility, 0.05).validate(),
            refused(Parameter::Volatility),
            "{volatility}"
        );
    }
}

#[test]
fn the_first_parameter_out_of_range_is_named() {
    assert_eq!(parameters(100.0, 0, -1.0, 0, -1.0, 0.05).validate(), refused(Parameter::Steps));
    assert_eq!(
        parameters(100.0, 3, -1.0, 0, -1.0, 0.05).validate(),
        refused(Parameter::PathCount)
    );
    assert_eq!(parameters(100.0, 3, -1.0, 2, -1.0, 0.05).validate(), refused(Parameter::Horizon));
}

#[test]
fn what_is_no_number_is_not_out_of_range() {
    assert_eq!(parameters(100.0, 1, f64::NAN, 1, 0.2, 0.05).validate(), Ok(()));
    assert_eq!(parameters(100.0, 1, 1.0, 1, f64::NAN, 0.05).validate(), Ok(()));
}

#[test]
fn counts_are_whole_parts() {
    let params = SimulationParameters::from_numbers(
        125.0_f64.to_bits(),
        100.7_f64.to_bits(),
        1.0_f64.to_bits(),
        1_000_000.0_f64.to_bits(),
        0.17_f64.to_bits(),
        0.23_f64.to_bits(),
    );
    assert_eq!(params, parameters(125.0, 100, 1.0, 1_000_000, 0.17, 0.23));
}

#[test]
fn counts_below_one_become_zero_and_are_refused() {
    let params = SimulationParameters::from_numbers(
        125.0_f64.to_bits(),
        0.5_f64.to_bits(),
        1.0_f64.to_bits(),
        (-3.0_f64).to_bits(),
        0.17_f64.to_bits(),
        0.23_f64.to_bits(),
    );
    assert_eq!(params.steps, 0);
    assert_eq!(params.path_count, 0);
    assert_eq!(params.validate(), refused(Parameter::Steps));
}

#[test]
fn a_table_fits_while_its_bytes_fit() {
    assert!(parameters(125.0, 100, 1.0, 1_000_000, 0.17, 0.23).table_fits());
    assert!(parameters(125.0, 0, 1.0, 0, 0.17, 0.23).table_fits());
    assert!(parameters(125.0, usize::MAX, 1.0, 0, 0.17, 0.23).table_fits());
    assert!(!parameters(125.0, usize::MAX, 1.0, 1, 0.17, 0.23).table_fits());
    assert!(!parameters(125.0, 1, 1.0, usize::MAX, 0.17, 0.23).table_fits());
    assert!(!parameters(125.0, usize::MAX / 2, 1.0, 4, 0.17, 0.23).table_fits());
    let limit = isize::MAX as usize / 8;
    assert!(parameters(125.0, limit - 1, 1.0, 1, 0.17, 0.23).table_fits());
    assert!(!parameters(125.0, limit, 1.0, 1, 0.17, 0.23).table_fits());
    assert!(parameters(125.0, 1, 1.0, limit / 2, 0.17, 0.23).table_fits());
    assert!(!parameters(125.0, 1, 1.0, limit / 2 + 1, 0.17, 0.23).table_fits());
}

#[test]
fn the_domain_is_narrower_than_the_ranges() {
    assert!(parameters(125.0, 100, 1.0, 1_000_000, 0.17, 0.23).in_domain());
    assert!(parameters(125.0, 1, 1.0, 1, 0.0, -0.23).in_domain());
    assert!(parameters(125.0, 1, 1.0, 1, -0.0, 0.0).in_domain());
    assert!(!parameters(125.0, 0, 1.0, 1, 0.17, 0.23).in_domain());
    assert!(!parameters(125.0, 1, 1.0, 0, 0.17, 0.23).in_domain());
    assert!(!parameters(125.0, 1, 0.0, 1, 0.17, 0.23).in_domain());
    assert!(!parameters(125.0, 1, 1.0, 1, -0.17, 0.23).in_domain());
    for price in [0.0, -0.0, -125.0, f64::INFINITY, f64::NAN] {
        let params = parameters(price, 1, 1.0, 1, 0.17, 0.23);
        assert_eq!(params.validate(), Ok(()));
        assert!(!params.in_domain(), "{price}");
    }
    for odd in [f64::INFINITY, f64::NAN] {
        assert!(!parameters(125.0, 1, odd, 1, 0.17, 0.23).in_domain());
        assert!(!parameters(125.0, 1, 1.0, 1, odd, 0.23).in_domain());
        assert!(!parameters(125.0, 1, 1.0, 1, 0.17, odd).in_domain());
    }
    assert!(!parameters(125.0, 1, 1.0, 1, 0.17, f64::NEG_INFINITY).in_domain());
}
