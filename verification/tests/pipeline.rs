use confession_core::config::Config;
use confession_core::pipeline::{ConfigErrorReason, Decision, Disposition};

#[test]
fn end_to_end_publish_then_block_then_publish() {
    // Policy: cooldown 3600 s, empty blacklist. A first submission
    // publishes; ten seconds later the same submitter is blocked with
    // 3590 s remaining; past the window a new submission publishes again.
    let mut config = Config::new();
    config.set_confession_thread(1, 555);
    config.set_cooldown(1, 3600);

    let out = config.submit(1, 42, "first confession".to_string(), 0);
    match out.disposition {
        Disposition::Publish(dest, rc) => {
            assert_eq!(dest, 555);
            assert_eq!(rc.text, "first confession");
            assert!(rc.categories.is_empty());
        }
        _ => panic!("expected Publish"),
    }
    assert!(out.audit_line.is_some());

    let out = config.submit(1, 42, "again".to_string(), 10);
    match out.disposition {
        Disposition::Blocked(rem) => assert_eq!(rem, 3590),
        _ => panic!("expected Blocked"),
    }
    assert!(out.audit_line.is_none());

    let out = config.submit(1, 42, "after the wait".to_string(), 3601);
    assert!(matches!(out.disposition, Disposition::Publish(..)));
}

#[test]
fn end_to_end_flagged_then_rejected() {
    // Blacklist ["spam"]: a submission containing "SPAM" goes to review;
    // rejecting it discards it and the community's pending list is empty.
    let mut config = Config::new();
    config.set_confession_thread(1, 555);
    assert!(config.blacklist_add(1, "spam".to_string()));

    let out = config.submit(1, 42, "this is SPAM content".to_string(), 0);
    let id = match out.disposition {
        Disposition::Pending(id) => id,
        _ => panic!("expected Pending"),
    };
    assert!(out.audit_line.is_some());
    assert_eq!(config.list_pending(1).len(), 1);
    assert_eq!(config.list_pending(1)[0].flagged_terms, vec!["spam".to_string()]);

    let disp = config.resolve(1, id, Decision::Reject);
    assert!(matches!(disp, Disposition::Discarded));
    assert!(config.list_pending(1).is_empty());
}

#[test]
fn end_to_end_no_destination() {
    // No destination configured: the submission fails with a configuration
    // error and neither cooldown nor audit state is touched.
    let mut config = Config::new();
    let out = config.submit(7, 42, "anything".to_string(), 100);
    match out.disposition {
        Disposition::ConfigError(reason) => {
            assert_eq!(reason, ConfigErrorReason::NoDestination)
        }
        _ => panic!("expected ConfigError"),
    }
    assert!(out.audit_line.is_none());
    assert_eq!(config.last_submission(7, 42), None);
    // The submitter is still free to submit once a destination exists.
    config.set_confession_thread(7, 9);
    let out = config.submit(7, 42, "anything".to_string(), 100);
    assert!(matches!(out.disposition, Disposition::Publish(..)));
}

#[test]
fn flagged_submission_consumes_cooldown_immediately() {
    let mut config = Config::new();
    config.set_confession_thread(1, 555);
    assert!(config.blacklist_add(1, "spam".to_string()));
    let out = config.submit(1, 42, "spam".to_string(), 0);
    assert!(matches!(out.disposition, Disposition::Pending(_)));
    let out = config.submit(1, 42, "clean".to_string(), 10);
    assert!(matches!(out.disposition, Disposition::Blocked(_)));
}

#[test]
fn approve_publishes_the_stored_content() {
    let mut config = Config::new();
    config.set_confession_thread(1, 555);
    assert!(config.blacklist_add(1, "spam".to_string()));
    let category = config.add_category(1, "Serious".to_string());
    assert_eq!(category, confession_core::config::CategoryAddOutcome::Added);

    let out = config.submit(1, 42, "some spam text".to_string(), 0);
    let id = match out.disposition {
        Disposition::Pending(id) => id,
        _ => panic!("expected Pending"),
    };
    let disp = config.resolve(1, id, Decision::Approve);
    match disp {
        Disposition::Publish(dest, rc) => {
            assert_eq!(dest, 555);
            assert_eq!(rc.text, "some spam text");
            assert_eq!(rc.categories, vec!["Serious".to_string()]);
        }
        _ => panic!("expected Publish"),
    }
    assert!(config.list_pending(1).is_empty());
}

#[test]
fn resolve_unknown_id_is_not_found() {
    let mut config = Config::new();
    config.set_confession_thread(1, 555);
    let disp = config.resolve(1, 999, Decision::Approve);
    assert!(matches!(
        disp,
        Disposition::ConfigError(ConfigErrorReason::NotFound)
    ));
    let disp = config.resolve(1, 999, Decision::Reject);
    assert!(matches!(
        disp,
        Disposition::ConfigError(ConfigErrorReason::NotFound)
    ));
}

#[test]
fn approve_without_destination_keeps_the_entry() {
    // The entry was queued while a destination existed; if the destination
    // is unset by the time of approval the entry must not be lost.
    let mut config = Config::new();
    config.set_confession_thread(1, 555);
    assert!(config.blacklist_add(1, "spam".to_string()));
    let out = config.submit(1, 42, "spam".to_string(), 0);
    let id = match out.disposition {
        Disposition::Pending(id) => id,
        _ => panic!("expected Pending"),
    };
    // Another community has no destination; its moderator cannot approve,
    // but neither can the entry be approved into community 2.
    let disp = config.resolve(2, id, Decision::Approve);
    assert!(matches!(
        disp,
        Disposition::ConfigError(ConfigErrorReason::WrongCommunity)
    ));
    assert_eq!(config.list_pending(1).len(), 1);
}
