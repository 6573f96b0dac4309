use confession_core::config::{CategoryAddOutcome, CategoryRemoveOutcome, Config};
use confession_core::utils::{content_acceptable, ConfessionModal, ReplyModal};

#[test]
fn blacklist_add_rejects_case_insensitive_duplicates() {
    let mut config = Config::new();
    assert!(config.blacklist_add(1, "Spam".to_string()));
    assert!(!config.blacklist_add(1, "SPAM".to_string()));
    assert!(!config.blacklist_add(1, "spam".to_string()));
    assert_eq!(config.blacklist_terms(1), vec!["Spam".to_string()]);
}

#[test]
fn blacklist_keeps_configured_order() {
    let mut config = Config::new();
    assert!(config.blacklist_add(1, "bbb".to_string()));
    assert!(config.blacklist_add(1, "aaa".to_string()));
    assert_eq!(
        config.blacklist_terms(1),
        vec!["bbb".to_string(), "aaa".to_string()]
    );
}

#[test]
fn blacklist_remove_takes_all_case_insensitive_matches() {
    let mut config = Config::new();
    assert!(config.blacklist_add(1, "Spam".to_string()));
    assert!(config.blacklist_add(1, "other".to_string()));
    assert!(config.blacklist_remove(1, "sPaM".to_string()));
    assert_eq!(config.blacklist_terms(1), vec!["other".to_string()]);
    // A second removal finds nothing.
    assert!(!config.blacklist_remove(1, "spam".to_string()));
}

#[test]
fn blacklists_are_per_community() {
    let mut config = Config::new();
    assert!(config.blacklist_add(1, "spam".to_string()));
    assert!(config.blacklist_terms(2).is_empty());
    assert!(config.blacklist_add(2, "spam".to_string()));
    assert!(config.blacklist_remove(1, "spam".to_string()));
    assert_eq!(config.blacklist_terms(2), vec!["spam".to_string()]);
}

#[test]
fn categories_add_list_remove() {
    let mut config = Config::new();
    assert_eq!(config.add_category(1, "Funny".to_string()), CategoryAddOutcome::Added);
    assert_eq!(config.add_category(1, "Serious".to_string()), CategoryAddOutcome::Added);
    assert_eq!(config.add_category(1, "FUNNY".to_string()), CategoryAddOutcome::Duplicate);
    assert_eq!(config.add_category(1, "".to_string()), CategoryAddOutcome::EmptyName);
    assert_eq!(
        config.get_categories(1),
        vec!["Funny".to_string(), "Serious".to_string()]
    );

    assert_eq!(
        config.remove_category(1, "funny".to_string()),
        CategoryRemoveOutcome::Removed
    );
    assert_eq!(
        config.remove_category(1, "funny".to_string()),
        CategoryRemoveOutcome::NotFound
    );
    assert_eq!(
        config.remove_category(1, "".to_string()),
        CategoryRemoveOutcome::EmptyName
    );
    assert_eq!(config.get_categories(1), vec!["Serious".to_string()]);
}

#[test]
fn destination_is_per_community() {
    let mut config = Config::new();
    assert_eq!(config.get_destination(1), None);
    config.set_confession_thread(1, 100);
    config.set_confession_thread(2, 200);
    assert_eq!(config.get_destination(1), Some(100));
    assert_eq!(config.get_destination(2), Some(200));
    config.set_confession_thread(1, 101);
    assert_eq!(config.get_destination(1), Some(101));
    assert_eq!(config.get_destination(2), Some(200));
}

#[test]
fn modal_forms_carry_their_content() {
    let modal = ConfessionModal { content: "a confession".to_string() };
    assert_eq!(modal.content, "a confession");
    let reply = ReplyModal { content: "a reply".to_string() };
    assert_eq!(reply.content, "a reply");
}

#[test]
fn content_limits_are_enforced_at_the_edge() {
    assert!(!content_acceptable(""));
    assert!(content_acceptable("x"));
    assert!(content_acceptable(&"y".repeat(2000)));
    assert!(!content_acceptable(&"y".repeat(2001)));
}
