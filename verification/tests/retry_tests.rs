use rate_limit_retry::RetryConfig;
use rate_limit_retry::RetryState;

#[test]
fn test_retry_config_default() {
    let config = RetryConfig::default();
    assert_eq!(config.max_retries, 3);
    assert_eq!(config.initial_backoff_millis, 1000);
    assert_eq!(config.backoff_multiplier_permille, 2000);
}

#[test]
fn test_retry_config_default_cap_and_jitter() {
    let config = RetryConfig::default();
    assert_eq!(config.max_backoff_millis, 30000);
    assert_eq!(config.jitter_factor_permille, 100);
}

#[test]
fn test_retry_state_can_retry() {
    let config = RetryConfig::default();
    let mut state = RetryState::new(config);

    assert!(state.can_retry());

    state.attempt = 1;
    assert!(state.can_retry());

    state.attempt = 2;
    assert!(state.can_retry());

    state.attempt = 3;
    assert!(!state.can_retry());
}

#[test]
fn test_calculate_backoff() {
    let config = RetryConfig {
        max_retries: 3,
        initial_backoff_millis: 1000,
        backoff_multiplier_permille: 2000,
        max_backoff_millis: 10000,
        jitter_factor_permille: 0,
    };

    let state = RetryState::new(config);

    let delay0 = state.calculate_backoff();
    assert_eq!(delay0, 1000);

    let mut state1 = state.clone();
    state1.attempt = 1;
    let delay1 = state1.calculate_backoff();
    assert_eq!(delay1, 2000);

    let mut state2 = state.clone();
    state2.attempt = 2;
    let delay2 = state2.calculate_backoff();
    assert_eq!(delay2, 4000);
}

#[test]
fn test_calculate_backoff_max_cap() {
    let config = RetryConfig {
        max_retries: 10,
        initial_backoff_millis: 1000,
        backoff_multiplier_permille: 2000,
        max_backoff_millis: 5000,
        jitter_factor_permille: 0,
    };

    let mut state = RetryState::new(config);
    state.attempt = 10;

    let delay = state.calculate_backoff();
    assert_eq!(delay, 5000);
}

#[test]
fn test_calculate_backoff_jitter_window() {
    // Full jitter (factor 1.0) at a capped delay of 1000 ms: every draw must
    // land in [500, 1500], and the draw never goes negative.
    let config = RetryConfig {
        max_retries: 3,
        initial_backoff_millis: 1000,
        backoff_multiplier_permille: 2000,
        max_backoff_millis: 1000,
        jitter_factor_permille: 1000,
    };
    let state = RetryState::new(config);
    let mut i = 0;
    while i < 200 {
        let delay = state.calculate_backoff();
        assert!(delay >= 500);
        assert!(delay <= 1500);
        i += 1;
    }
}

#[test]
fn test_calculate_backoff_does_not_mutate() {
    let config = RetryConfig::default();
    let state = RetryState::new(config);
    let _ = state.calculate_backoff();
    let _ = state.calculate_backoff();
    assert_eq!(state.attempt, 0);
}

#[test]
fn test_complete_wait_increments_once() {
    let config = RetryConfig::default();
    let mut state = RetryState::new(config);
    assert_eq!(state.attempt, 0);
    state.complete_wait();
    assert_eq!(state.attempt, 1);
    state.complete_wait();
    assert_eq!(state.attempt, 2);
}

#[test]
fn test_backoff_with_unit_is_deterministic() {
    let config = RetryConfig {
        max_retries: 3,
        initial_backoff_millis: 1000,
        backoff_multiplier_permille: 2000,
        max_backoff_millis: 30000,
        jitter_factor_permille: 1000,
    };
    let state = RetryState::new(config);
    // Mid-point sample: no perturbation.
    assert_eq!(state.backoff_with_unit(32768), 1000);
    // Lowest sample: half the jitter factor below the capped delay.
    assert_eq!(state.backoff_with_unit(0), 500);
    // Highest sample: just under half above.
    let high = state.backoff_with_unit(65535);
    assert!(high > 1000 && high <= 1500);
    // Same sample, same delay.
    assert_eq!(state.backoff_with_unit(12345), state.backoff_with_unit(12345));
}
