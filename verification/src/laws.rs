//! Laws of the store, stated over its mathematical model and proved once
//! and for all: how the cooldown gate evolves with the clock, and how the
//! review queue behaves under resolution.

use vstd::prelude::*;
use crate::config::{queue_after, resolution_of, PendingModel, ResolveError, StoreModel};
use crate::assoc::lemma_assoc_remove;

verus! {

/// The remaining wait decreases with the clock while no submission lands.
pub proof fn lemma_blocked_wait_follows_clock(
    m: StoreModel,
    community: u64,
    submitter: u64,
    first: int,
    second: int,
    wait: int,
)
    requires
        m.check(community, submitter, first) == Some(wait),
        second < first + wait,
    ensures
        m.check(community, submitter, second) == Some(wait - (second - first)),
{
}

/// A community whose cooldown period is zero never blocks anyone, no
/// matter what was recorded before.
pub proof fn lemma_zero_cooldown_disables(m: StoreModel, community: u64, submitter: u64, t: int)
    requires
        m.cooldown(community) == 0,
    ensures
        m.check(community, submitter, t) is None,
{
}

/// A submitter with no record in a community is never blocked there, no
/// matter the policy.
pub proof fn lemma_no_record_allows(m: StoreModel, community: u64, submitter: u64, t: int)
    requires
        m.last_submission(community, submitter) is None,
    ensures
        m.check(community, submitter, t) is None,
{
}

/// Queue ownership isolation: an entry owned by one community resolves as
/// `WrongCommunity` for any other community, with the queue untouched, so
/// the owner can still resolve it afterwards.
pub proof fn lemma_queue_ownership_isolation(m: StoreModel, id: u64, owner: u64, other: u64)
    requires
        m.pending_entry(id) matches Some(p) && p.guild_id == owner,
        other != owner,
    ensures
        resolution_of(m, id, other) == Err::<PendingModel, ResolveError>(
            ResolveError::WrongCommunity,
        ),
        queue_after(m, id, other) == m.pending,
        resolution_of(m, id, owner) matches Ok(p) && p.guild_id == owner,
{
}

/// At-most-once resolution: once a resolution succeeds, any further attempt
/// on the same id, by any community, is `NotFound`.
pub proof fn lemma_resolution_at_most_once(
    m: StoreModel,
    m2: StoreModel,
    id: u64,
    community: u64,
    community2: u64,
)
    requires
        resolution_of(m, id, community) is Ok,
        m2.pending == queue_after(m, id, community),
    ensures
        resolution_of(m2, id, community2) == Err::<PendingModel, ResolveError>(
            ResolveError::NotFound,
        ),
{
    lemma_assoc_remove(m.pending, id, id);
}

} // verus!
