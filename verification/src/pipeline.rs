//! The submission pipeline: one decision per submission attempt, one
//! disposition per moderator decision. Ordered per attempt: destination
//! check, cooldown gate, audit line, blacklist scan, then either queueing
//! for review or clearance for publication. The pipeline never talks to the
//! platform; the caller delivers `Publish` dispositions and appends audit
//! lines to its sink.

use vstd::prelude::*;
use crate::config::{Config, PendingModel, ResolveError};
use crate::blacklist::{scan, scan_spec};
use crate::text::lower_of;
use crate::anonymize::{anonymous_tag, tag_of};
use crate::audit::{log_confession, audit_line_of};
use crate::assoc::assoc_remove;

verus! {

/// What a published submission carries to the destination: the text and the
/// community's category labels for downstream rendering.
pub struct RenderedContent {
    /// The submitted text, unmodified.
    pub text: String,
    /// The community's category labels, purely descriptive.
    pub categories: Vec<String>,
}

/// Why a submission or moderation action failed for configuration or
/// addressing reasons.
#[derive(Debug, Clone, Copy, PartialEq, Eq, Structural)]
pub enum ConfigErrorReason {
    /// The community has no destination configured.
    NoDestination,
    /// No pending entry carries the given id.
    NotFound,
    /// The pending entry belongs to another community.
    WrongCommunity,
}

/// The outcome of a submission attempt or a moderation decision.
pub enum Disposition {
    /// Deliver the rendered content to the given destination channel.
    Publish(u64, RenderedContent),
    /// The submission was flagged and waits in the review queue under this
    /// id.
    Pending(u64),
    /// The submitter must wait this many seconds (always positive).
    Blocked(u64),
    /// The submission was rejected by a moderator and discarded.
    Discarded,
    /// Nothing happened; the reason says why.
    ConfigError(ConfigErrorReason),
}

/// The result of a submission attempt: its disposition, and the audit line
/// to append whenever the attempt got past the gates (blocked or
/// misconfigured attempts leave no trace beyond their reply).
pub struct SubmitOutcome {
    pub disposition: Disposition,
    pub audit_line: Option<String>,
}

/// A moderator's decision on a pending submission.
#[derive(Debug, Clone, Copy, PartialEq, Eq, Structural)]
pub enum Decision {
    /// Publish the entry after all.
    Approve,
    /// Discard the entry.
    Reject,
}

impl Config {
    /// One submission attempt. In order: no destination configured means a
    /// configuration error and no effect at all; a live cooldown blocks the
    /// attempt with the remaining wait, again with no effect; past the
    /// gates, the audit line is always produced and the submission time is
    /// recorded, and the attempt either goes to the review queue (when the
    /// blacklist scan matches) or is cleared for publication. A flagged
    /// submission consumes the submitter's cooldown slot immediately, not on
    /// later approval. The caller's clock must not run behind the recorded
    /// time, and the id space must not be exhausted.
    pub fn submit(&mut self, community: u64, submitter: u64, content: String, now: u64) -> (r:
        SubmitOutcome)
        requires
            old(self).wf(),
            old(self)@.last_submission(community, submitter) matches Some(l) ==> l <= now,
            old(self)@.next_id < u64::MAX,
        ensures
            final(self).wf(),
            match old(self)@.destination(community) {
                None => {
                    &&& r.disposition == Disposition::ConfigError(ConfigErrorReason::NoDestination)
                    &&& r.audit_line is None
                    &&& final(self)@ == old(self)@
                },
                Some(dest) => match old(self)@.check(community, submitter, now as int) {
                    Some(rem) => {
                        &&& r.disposition matches Disposition::Blocked(x) && x == rem
                        &&& r.audit_line is None
                        &&& final(self)@ == old(self)@
                    },
                    None => {
                        let matched = scan_spec(
                            lower_of(content@),
                            old(self)@.terms(community),
                        );
                        &&& r.audit_line matches Some(line) && line@ == audit_line_of(
                            tag_of(submitter),
                            content@,
                        )
                        &&& final(self)@.last_submission(community, submitter) == Some(now)
                        &&& forall|c2: u64, s2: u64|
                            !(c2 == community && s2 == submitter)
                                ==> final(self)@.last_submission(c2, s2) == old(
                                self,
                            )@.last_submission(c2, s2)
                        &&& final(self)@.destinations == old(self)@.destinations
                        &&& final(self)@.cooldowns == old(self)@.cooldowns
                        &&& final(self)@.blacklist == old(self)@.blacklist
                        &&& final(self)@.categories == old(self)@.categories
                        &&& if matched.len() > 0 {
                            &&& r.disposition matches Disposition::Pending(id) && id == old(
                                self,
                            )@.next_id
                            &&& final(self)@.pending == old(self)@.pending.push(
                                (old(self)@.next_id, PendingModel {
                                    confession_id: old(self)@.next_id,
                                    guild_id: community,
                                    author_tag: tag_of(submitter),
                                    content: content@,
                                    flagged_terms: matched,
                                    timestamp: now,
                                }),
                            )
                            &&& final(self)@.next_id == old(self)@.next_id + 1
                        } else {
                            &&& r.disposition matches Disposition::Publish(d, rc) && d == dest
                                && rc.text@ == content@ && rc.categories.deep_view() == old(
                                self,
                            )@.category_list(community)
                            &&& final(self)@.pending == old(self)@.pending
                            &&& final(self)@.next_id == old(self)@.next_id
                        }
                    },
                },
            },
    {
        let dest = match self.get_destination(community) {
            None => {
                return SubmitOutcome {
                    disposition: Disposition::ConfigError(ConfigErrorReason::NoDestination),
                    audit_line: None,
                };
            },
            Some(d) => d,
        };
        match self.check_cooldown(community, submitter, now) {
            Some(rem) => {
                return SubmitOutcome {
                    disposition: Disposition::Blocked(rem),
                    audit_line: None,
                };
            },
            None => {},
        }
        let tag = anonymous_tag(submitter);
        let line = log_confession(tag.as_str(), content.as_str());
        let terms = self.blacklist_terms(community);
        let matched = scan(content.as_str(), &terms);
        if matched.len() > 0 {
            let id = self.enqueue(community, tag, content, matched, now);
            self.record_submission(community, submitter, now);
            SubmitOutcome { disposition: Disposition::Pending(id), audit_line: Some(line) }
        } else {
            self.record_submission(community, submitter, now);
            let cats = self.get_categories(community);
            SubmitOutcome {
                disposition: Disposition::Publish(
                    dest,
                    RenderedContent { text: content, categories: cats },
                ),
                audit_line: Some(line),
            }
        }
    }

    /// One moderator decision on a pending id. An unknown id or a foreign
    /// community's id changes nothing and reports why. Approval needs a
    /// destination; without one the entry stays queued and the error says
    /// so. A successful approval removes the entry and clears it for
    /// publication; a successful rejection removes and discards it. Either
    /// way the id resolves at most once: a second attempt is not found.
    pub fn resolve(&mut self, community: u64, confession_id: u64, decision: Decision) -> (r:
        Disposition)
        requires
            old(self).wf(),
        ensures
            final(self).wf(),
            match old(self)@.pending_entry(confession_id) {
                None => {
                    &&& r == Disposition::ConfigError(ConfigErrorReason::NotFound)
                    &&& final(self)@ == old(self)@
                },
                Some(p) => if p.guild_id != community {
                    &&& r == Disposition::ConfigError(ConfigErrorReason::WrongCommunity)
                    &&& final(self)@ == old(self)@
                } else if decision == Decision::Approve {
                    match old(self)@.destination(community) {
                        None => {
                            &&& r == Disposition::ConfigError(ConfigErrorReason::NoDestination)
                            &&& final(self)@ == old(self)@
                        },
                        Some(dest) => {
                            &&& r matches Disposition::Publish(d, rc) && d == dest && rc.text@
                                == p.content && rc.categories.deep_view() == old(
                                self,
                            )@.category_list(community)
                            &&& final(self)@.pending == assoc_remove(
                                old(self)@.pending,
                                confession_id,
                            )
                            &&& final(self)@.destinations == old(self)@.destinations
                            &&& final(self)@.cooldowns == old(self)@.cooldowns
                            &&& final(self)@.records == old(self)@.records
                            &&& final(self)@.blacklist == old(self)@.blacklist
                            &&& final(self)@.categories == old(self)@.categories
                            &&& final(self)@.next_id == old(self)@.next_id
                        },
                    }
                } else {
                    &&& r == Disposition::Discarded
                    &&& final(self)@.pending == assoc_remove(old(self)@.pending, confession_id)
                    &&& final(self)@.destinations == old(self)@.destinations
                    &&& final(self)@.cooldowns == old(self)@.cooldowns
                    &&& final(self)@.records == old(self)@.records
                    &&& final(self)@.blacklist == old(self)@.blacklist
                    &&& final(self)@.categories == old(self)@.categories
                    &&& final(self)@.next_id == old(self)@.next_id
                },
            },
    {
        match decision {
            Decision::Approve => {
                let p = match self.get_pending(confession_id) {
                    None => {
                        return Disposition::ConfigError(ConfigErrorReason::NotFound);
                    },
                    Some(p) => p,
                };
                if p.guild_id != community {
                    return Disposition::ConfigError(ConfigErrorReason::WrongCommunity);
                }
                let dest = match self.get_destination(community) {
                    None => {
                        return Disposition::ConfigError(ConfigErrorReason::NoDestination);
                    },
                    Some(d) => d,
                };
                let entry = match self.resolve_approve(confession_id, community) {
                    Ok(e) => e,
                    Err(_) => {
                        proof {
                            assert(false);
                        }
                        return Disposition::ConfigError(ConfigErrorReason::NotFound);
                    },
                };
                let cats = self.get_categories(community);
                Disposition::Publish(
                    dest,
                    RenderedContent { text: entry.content, categories: cats },
                )
            },
            Decision::Reject => {
                match self.resolve_reject(confession_id, community) {
                    Ok(_) => Disposition::Discarded,
                    Err(ResolveError::NotFound) => Disposition::ConfigError(
                        ConfigErrorReason::NotFound,
                    ),
                    Err(ResolveError::WrongCommunity) => Disposition::ConfigError(
                        ConfigErrorReason::WrongCommunity,
                    ),
                }
            },
        }
    }
}

} // verus!
