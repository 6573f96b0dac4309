use confession_core::config::{Config, PendingSubmission, ResolveError};

fn enqueue_in(config: &mut Config, community: u64) -> u64 {
    config.enqueue(
        community,
        "tag".to_string(),
        "flagged content".to_string(),
        vec!["bad".to_string()],
        1000,
    )
}

#[test]
fn ownership_isolation() {
    // Enqueued in community A: community B's approval attempt fails with
    // WrongCommunity and the entry survives, so A can still approve it.
    let mut config = Config::new();
    let id = enqueue_in(&mut config, 1);
    let r = config.resolve_approve(id, 2);
    assert_eq!(r.err(), Some(ResolveError::WrongCommunity));
    let r = config.resolve_approve(id, 1);
    let entry = r.ok().expect("owner's approval succeeds");
    assert_eq!(entry.guild_id, 1);
    assert_eq!(entry.content, "flagged content");
}

#[test]
fn at_most_once_resolution() {
    // After a successful approval or rejection, any second attempt on the
    // same id is NotFound.
    let mut config = Config::new();
    let id = enqueue_in(&mut config, 1);
    assert!(config.resolve_approve(id, 1).is_ok());
    assert_eq!(config.resolve_approve(id, 1).err(), Some(ResolveError::NotFound));
    assert_eq!(config.resolve_reject(id, 1).err(), Some(ResolveError::NotFound));

    let id2 = enqueue_in(&mut config, 1);
    assert!(config.resolve_reject(id2, 1).is_ok());
    assert_eq!(config.resolve_reject(id2, 1).err(), Some(ResolveError::NotFound));
    assert_eq!(config.resolve_approve(id2, 1).err(), Some(ResolveError::NotFound));
}

#[test]
fn enqueue_issues_fresh_ids() {
    let mut config = Config::new();
    let a = enqueue_in(&mut config, 1);
    let b = enqueue_in(&mut config, 1);
    let c = enqueue_in(&mut config, 2);
    assert_ne!(a, b);
    assert_ne!(b, c);
    assert_ne!(a, c);
}

#[test]
fn listing_is_scoped_to_the_community() {
    let mut config = Config::new();
    let a = enqueue_in(&mut config, 1);
    let _b = enqueue_in(&mut config, 2);
    let listed = config.list_pending(1);
    assert_eq!(listed.len(), 1);
    assert_eq!(listed[0].confession_id, a);
    assert_eq!(listed[0].guild_id, 1);
}

#[test]
fn wrong_community_rejection_keeps_the_entry() {
    let mut config = Config::new();
    let id = enqueue_in(&mut config, 1);
    assert_eq!(config.resolve_reject(id, 2).err(), Some(ResolveError::WrongCommunity));
    assert_eq!(config.list_pending(1).len(), 1);
    assert!(config.resolve_reject(id, 1).is_ok());
}

#[test]
fn restore_keeps_ids_fresh() {
    // A persisted entry comes back under its original id, and newly issued
    // ids never collide with it.
    let mut config = Config::new();
    let entry = PendingSubmission {
        confession_id: 7,
        guild_id: 1,
        author_tag: "tag".to_string(),
        content: "restored".to_string(),
        flagged_terms: vec!["bad".to_string()],
        timestamp: 50,
    };
    assert!(config.restore_pending(entry));
    let fresh = enqueue_in(&mut config, 1);
    assert!(fresh > 7);
    // The same id cannot be restored twice.
    let duplicate = PendingSubmission {
        confession_id: 7,
        guild_id: 1,
        author_tag: "tag".to_string(),
        content: "again".to_string(),
        flagged_terms: vec![],
        timestamp: 51,
    };
    assert!(!config.restore_pending(duplicate));
    assert_eq!(config.list_pending(1).len(), 2);
}

#[test]
fn get_pending_is_a_copy() {
    let mut config = Config::new();
    let id = enqueue_in(&mut config, 1);
    let copy = config.get_pending(id).expect("entry exists");
    assert_eq!(copy.content, "flagged content");
    assert!(config.get_pending(id).is_some());
    assert!(config.get_pending(999).is_none());
}
