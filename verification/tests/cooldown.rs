use confession_core::config::Config;

#[test]
fn test_default_cooldown() {
    let config = Config::new();
    let guild_id: u64 = 12345;
    assert_eq!(config.get_cooldown(guild_id), 3600);
}

#[test]
fn test_custom_cooldown() {
    let mut config = Config::new();
    let guild_id: u64 = 12345;
    config.set_cooldown(guild_id, 7200);
    assert_eq!(config.get_cooldown(guild_id), 7200);
}

#[test]
fn test_cooldown_check_no_prior_submission() {
    let config = Config::new();
    let guild_id: u64 = 12345;
    let user_id: u64 = 67890;
    let current_time: u64 = 1000;
    assert_eq!(config.check_cooldown(guild_id, user_id, current_time), None);
}

#[test]
fn test_cooldown_check_within_cooldown() {
    let mut config = Config::new();
    let guild_id: u64 = 12345;
    let user_id: u64 = 67890;
    config.set_cooldown(guild_id, 3600);
    config.record_submission(guild_id, user_id, 1000);

    // 10 seconds later
    let remaining = config.check_cooldown(guild_id, user_id, 1010);
    assert_eq!(remaining, Some(3590));
}

#[test]
fn test_cooldown_check_after_cooldown() {
    let mut config = Config::new();
    let guild_id: u64 = 12345;
    let user_id: u64 = 67890;
    config.set_cooldown(guild_id, 3600);
    config.record_submission(guild_id, user_id, 1000);

    // 3600 seconds later (cooldown expired)
    let remaining = config.check_cooldown(guild_id, user_id, 4600);
    assert_eq!(remaining, None);
}

#[test]
fn test_zero_cooldown_disabled() {
    let mut config = Config::new();
    let guild_id: u64 = 12345;
    let user_id: u64 = 67890;
    config.set_cooldown(guild_id, 0);
    config.record_submission(guild_id, user_id, 1000);

    // Immediately after submission with 0 cooldown
    let remaining = config.check_cooldown(guild_id, user_id, 1000);
    assert_eq!(remaining, None);
}

#[test]
fn test_record_submission() {
    let mut config = Config::new();
    let guild_id: u64 = 12345;
    let user_id: u64 = 67890;
    let timestamp: u64 = 1000;

    config.record_submission(guild_id, user_id, timestamp);
    assert_eq!(config.last_submission(guild_id, user_id), Some(timestamp));
}

#[test]
fn cooldown_monotonicity_concrete() {
    // Blocked with r at time t stays blocked at any t' < t + r, remaining
    // r - (t' - t).
    let mut config = Config::new();
    config.set_cooldown(1, 3600);
    config.record_submission(1, 2, 1000);
    assert_eq!(config.check_cooldown(1, 2, 1010), Some(3590));
    assert_eq!(config.check_cooldown(1, 2, 2000), Some(2600));
    assert_eq!(config.check_cooldown(1, 2, 4599), Some(1));
    assert_eq!(config.check_cooldown(1, 2, 4600), None);
}

#[test]
fn cooldown_is_per_community_and_submitter() {
    let mut config = Config::new();
    config.set_cooldown(1, 3600);
    config.set_cooldown(9, 3600);
    config.record_submission(1, 2, 1000);
    // Same submitter in another community, and another submitter in the
    // same community, are unaffected.
    assert_eq!(config.check_cooldown(9, 2, 1010), None);
    assert_eq!(config.check_cooldown(1, 3, 1010), None);
}
