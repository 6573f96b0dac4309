use confession_core::config::Config;
use confession_core::pipeline::{Decision, Disposition};

// Rebuilds a store from what its enumeration getters hand out, the way a
// caller persists and reloads it, and checks the copy behaves identically.
// The per-submitter cooldown record is deliberately not carried over: it is
// process-local and starts empty.
fn rebuild(config: &Config) -> Config {
    let mut copy = Config::new();
    for (guild, channel) in config.destination_entries() {
        copy.set_confession_thread(guild, channel);
    }
    for (guild, seconds) in config.cooldown_entries() {
        copy.set_cooldown(guild, seconds);
    }
    for (guild, terms) in config.blacklist_entries() {
        for term in terms {
            assert!(copy.blacklist_add(guild, term));
        }
    }
    for (guild, names) in config.category_entries() {
        for name in names {
            assert_eq!(
                copy.add_category(guild, name),
                confession_core::config::CategoryAddOutcome::Added
            );
        }
    }
    for entry in config.pending_entries() {
        assert!(copy.restore_pending(entry));
    }
    copy
}

#[test]
fn persisted_state_round_trips() {
    let mut config = Config::new();
    config.set_confession_thread(1, 555);
    config.set_cooldown(1, 60);
    config.set_cooldown(2, 0);
    assert!(config.blacklist_add(1, "Spam".to_string()));
    assert!(config.blacklist_add(1, "worse".to_string()));
    assert_eq!(
        config.add_category(1, "Funny".to_string()),
        confession_core::config::CategoryAddOutcome::Added
    );
    let out = config.submit(1, 42, "spam here".to_string(), 10);
    let id = match out.disposition {
        Disposition::Pending(id) => id,
        _ => panic!("expected Pending"),
    };

    let mut copy = rebuild(&config);
    assert_eq!(copy.get_destination(1), Some(555));
    assert_eq!(copy.get_cooldown(1), 60);
    assert_eq!(copy.get_cooldown(2), 0);
    assert_eq!(copy.blacklist_terms(1), config.blacklist_terms(1));
    assert_eq!(copy.get_categories(1), config.get_categories(1));
    assert_eq!(copy.list_pending(1).len(), 1);
    assert_eq!(copy.list_pending(1)[0].confession_id, id);
    assert_eq!(copy.list_pending(1)[0].content, "spam here");

    // The restored entry still resolves exactly once, and newly issued ids
    // do not collide with the restored one.
    let disp = copy.resolve(1, id, Decision::Approve);
    assert!(matches!(disp, Disposition::Publish(..)));
    let disp = copy.resolve(1, id, Decision::Approve);
    assert!(matches!(disp, Disposition::ConfigError(_)));
    let out = copy.submit(1, 43, "more spam here".to_string(), 20);
    match out.disposition {
        Disposition::Pending(id2) => assert_ne!(id2, id),
        _ => panic!("expected Pending"),
    }
}
