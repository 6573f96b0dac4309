//! The process-wide store: per-community policies (destination, cooldown,
//! blacklist, categories), the per-submitter cooldown record, and the
//! pending-review queue. Every mutation keeps the store well formed: each
//! keyed collection has unique keys and every pending id is below the next
//! id to be issued.

use vstd::prelude::*;
use crate::blacklist::{has_matching, remove_matching, lemma_remove_matching_len};
use crate::text::{lower_of, lowercase, ascii_eq, eq_ignore_ascii_case};
use crate::assoc::{
    assoc_find, assoc_remove, unique_keys, lemma_assoc_find_none, lemma_assoc_find_at,
    lemma_assoc_find_unique, lemma_assoc_find_update, lemma_assoc_find_push, lemma_assoc_remove,
    lemma_assoc_remove_is_index_remove,
};
use crate::DEFAULT_COOLDOWN_SECONDS;

verus! {

/// A submission flagged by the blacklist, waiting for a moderator decision.
/// Immutable once created; leaves the queue exactly once, by approval or
/// rejection.
pub struct PendingSubmission {
    /// Queue-wide unique identifier.
    pub confession_id: u64,
    /// The community that owns the entry; only its moderators may resolve it.
    pub guild_id: u64,
    /// Pseudonymous tag of the submitter.
    pub author_tag: String,
    /// The submitted text, unmodified.
    pub content: String,
    /// The blacklist terms that caused flagging, in policy order.
    pub flagged_terms: Vec<String>,
    /// Submission time, integer seconds.
    pub timestamp: u64,
}

/// The mathematical image of a pending submission.
pub struct PendingModel {
    pub confession_id: u64,
    pub guild_id: u64,
    pub author_tag: Seq<char>,
    pub content: Seq<char>,
    pub flagged_terms: Seq<Seq<char>>,
    pub timestamp: u64,
}

impl DeepView for PendingSubmission {
    type V = PendingModel;

    open spec fn deep_view(&self) -> PendingModel {
        self.view()
    }
}

impl View for PendingSubmission {
    type V = PendingModel;

    open spec fn view(&self) -> PendingModel {
        PendingModel {
            confession_id: self.confession_id,
            guild_id: self.guild_id,
            author_tag: self.author_tag@,
            content: self.content@,
            flagged_terms: self.flagged_terms.deep_view(),
            timestamp: self.timestamp,
        }
    }
}

/// The mathematical image of the whole store: association sequences of plain
/// values, plus the next pending id.
pub struct StoreModel {
    /// community -> destination channel.
    pub destinations: Seq<(u64, u64)>,
    /// community -> cooldown seconds (absent means the default applies).
    pub cooldowns: Seq<(u64, u64)>,
    /// (community, submitter) -> last accepted submission time.
    pub records: Seq<((u64, u64), u64)>,
    /// community -> blacklist terms, in configured order.
    pub blacklist: Seq<(u64, Seq<Seq<char>>)>,
    /// community -> category labels, in configured order.
    pub categories: Seq<(u64, Seq<Seq<char>>)>,
    /// pending id -> flagged submission.
    pub pending: Seq<(u64, PendingModel)>,
    /// The id the next enqueued submission will get.
    pub next_id: u64,
}

impl StoreModel {
    /// The destination channel configured for a community, if any.
    pub open spec fn destination(self, community: u64) -> Option<u64> {
        assoc_find(self.destinations, community)
    }

    /// The cooldown policy of a community; the canonical default when unset.
    pub open spec fn cooldown(self, community: u64) -> u64 {
        match assoc_find(self.cooldowns, community) {
            Some(v) => v,
            None => DEFAULT_COOLDOWN_SECONDS,
        }
    }

    /// The last recorded submission time of a submitter in a community.
    pub open spec fn last_submission(self, community: u64, submitter: u64) -> Option<u64> {
        assoc_find(self.records, (community, submitter))
    }

    /// The blacklist terms of a community; empty when unset.
    pub open spec fn terms(self, community: u64) -> Seq<Seq<char>> {
        match assoc_find(self.blacklist, community) {
            Some(ts) => ts,
            None => Seq::empty(),
        }
    }

    /// The category labels of a community; empty when unset.
    pub open spec fn category_list(self, community: u64) -> Seq<Seq<char>> {
        match assoc_find(self.categories, community) {
            Some(cs) => cs,
            None => Seq::empty(),
        }
    }

    /// The pending submission stored under an id, if any.
    pub open spec fn pending_entry(self, id: u64) -> Option<PendingModel> {
        assoc_find(self.pending, id)
    }

    /// The cooldown decision at time `now`: `None` when a submission may
    /// proceed, `Some(rem)` with `rem > 0` when it must wait `rem` more
    /// seconds. A community whose cooldown period is zero never blocks;
    /// neither is a submitter blocked who has no record yet.
    pub open spec fn check(self, community: u64, submitter: u64, now: int) -> Option<int> {
        let cd = self.cooldown(community) as int;
        if cd == 0 {
            None
        } else {
            match self.last_submission(community, submitter) {
                None => None,
                Some(last) => {
                    let rem = cd - (now - last);
                    if rem > 0 {
                        Some(rem)
                    } else {
                        None
                    }
                },
            }
        }
    }

    /// Well-formedness: unique keys everywhere, pending pair keys match the
    /// entries' own ids, and every issued id is below `next_id`.
    pub open spec fn wf(self) -> bool {
        &&& unique_keys(self.destinations)
        &&& unique_keys(self.cooldowns)
        &&& unique_keys(self.records)
        &&& unique_keys(self.blacklist)
        &&& unique_keys(self.categories)
        &&& unique_keys(self.pending)
        &&& forall|i: int|
            0 <= i < self.pending.len()
                ==> (#[trigger] self.pending[i]).1.confession_id == self.pending[i].0
        &&& forall|i: int|
            0 <= i < self.pending.len() ==> (#[trigger] self.pending[i]).0 < self.next_id
    }
}

/// Some label of `cs` equals `name` up to ASCII case.
pub open spec fn has_ascii_matching(cs: Seq<Seq<char>>, name: Seq<char>) -> bool {
    exists|i: int| 0 <= i < cs.len() && ascii_eq(#[trigger] cs[i], name)
}

/// `cs` with every label that equals `name` up to ASCII case removed, order
/// otherwise preserved.
pub open spec fn remove_ascii_matching(cs: Seq<Seq<char>>, name: Seq<char>) -> Seq<Seq<char>>
    decreases cs.len(),
{
    if cs.len() == 0 {
        Seq::empty()
    } else if ascii_eq(cs[0], name) {
        remove_ascii_matching(cs.drop_first(), name)
    } else {
        seq![cs[0]] + remove_ascii_matching(cs.drop_first(), name)
    }
}

/// Removal never grows the label list, and leaves it whole exactly when
/// nothing matched.
pub proof fn lemma_remove_ascii_matching_len(cs: Seq<Seq<char>>, name: Seq<char>)
    ensures
        remove_ascii_matching(cs, name).len() <= cs.len(),
        (remove_ascii_matching(cs, name).len() == cs.len()) == !has_ascii_matching(cs, name),
    decreases cs.len(),
{
    if cs.len() > 0 {
        let rest = cs.drop_first();
        assert(forall|j: int| 0 <= j < rest.len() ==> #[trigger] rest[j] == cs[j + 1]);
        lemma_remove_ascii_matching_len(rest, name);
        if ascii_eq(cs[0], name) {
            assert(has_ascii_matching(cs, name));
        } else {
            assert(remove_ascii_matching(cs, name).len() == 1 + remove_ascii_matching(
                rest,
                name,
            ).len());
            if has_ascii_matching(rest, name) {
                let j = choose|j: int| 0 <= j < rest.len() && ascii_eq(#[trigger] rest[j], name);
                assert(ascii_eq(cs[j + 1], name));
                assert(has_ascii_matching(cs, name));
            }
            if has_ascii_matching(cs, name) {
                let j = choose|j: int| 0 <= j < cs.len() && ascii_eq(#[trigger] cs[j], name);
                assert(j > 0);
                assert(ascii_eq(rest[j - 1], name));
                assert(has_ascii_matching(rest, name));
            }
        }
    }
}

/// The stored pending submissions, without their key column.
pub open spec fn pending_values(s: Seq<(u64, PendingModel)>) -> Seq<PendingModel> {
    s.map_values(|p: (u64, PendingModel)| p.1)
}

/// Why a moderation action on a pending id failed.
#[derive(Debug, Clone, Copy, PartialEq, Eq, Structural)]
pub enum ResolveError {
    /// No pending entry carries the id: it never existed or was already
    /// resolved.
    NotFound,
    /// The entry belongs to another community; it is left untouched.
    WrongCommunity,
}

/// The outcome of resolving pending id `id` on behalf of `community`: the
/// entry when it exists and that community owns it, the error otherwise.
/// Both resolution operations promise exactly this outcome.
pub open spec fn resolution_of(m: StoreModel, id: u64, community: u64) -> Result<
    PendingModel,
    ResolveError,
> {
    match m.pending_entry(id) {
        None => Err(ResolveError::NotFound),
        Some(p) => if p.guild_id != community {
            Err(ResolveError::WrongCommunity)
        } else {
            Ok(p)
        },
    }
}

/// The queue after such a resolution: the entry is removed on success and
/// untouched otherwise. Both resolution operations promise exactly this
/// state.
pub open spec fn queue_after(m: StoreModel, id: u64, community: u64) -> Seq<(u64, PendingModel)> {
    if resolution_of(m, id, community) is Ok {
        assoc_remove(m.pending, id)
    } else {
        m.pending
    }
}

/// The pending entries owned by a community, in queue order.
pub open spec fn pending_for(s: Seq<(u64, PendingModel)>, community: u64) -> Seq<PendingModel>
    decreases s.len(),
{
    if s.len() == 0 {
        Seq::empty()
    } else {
        (if s[0].1.guild_id == community {
            seq![s[0].1]
        } else {
            Seq::empty()
        }) + pending_for(s.drop_first(), community)
    }
}

/// The outcome of adding a category label.
#[derive(Debug, Clone, Copy, PartialEq, Eq, Structural)]
pub enum CategoryAddOutcome {
    /// The label was appended to the community's list.
    Added,
    /// An equal label (up to ASCII case) was already present; nothing changed.
    Duplicate,
    /// The label was empty; nothing changed.
    EmptyName,
}

/// The outcome of removing a category label.
#[derive(Debug, Clone, Copy, PartialEq, Eq, Structural)]
pub enum CategoryRemoveOutcome {
    /// Every label equal to the given one (up to ASCII case) was removed.
    Removed,
    /// No label matched; nothing changed.
    NotFound,
    /// The label was empty; nothing changed.
    EmptyName,
}

/// The store itself: plain vectors of entries, with `StoreModel` as its view.
pub struct Config {
    confession_threads: Vec<(u64, u64)>,
    cooldowns: Vec<(u64, u64)>,
    user_cooldowns: Vec<((u64, u64), u64)>,
    blacklist: Vec<(u64, Vec<String>)>,
    categories: Vec<(u64, Vec<String>)>,
    pending_confessions: Vec<PendingSubmission>,
    next_pending_id: u64,
}

impl View for Config {
    type V = StoreModel;

    closed spec fn view(&self) -> StoreModel {
        StoreModel {
            destinations: self.confession_threads@,
            cooldowns: self.cooldowns@,
            records: self.user_cooldowns@,
            blacklist: self.blacklist@.map_values(|p: (u64, Vec<String>)| (p.0, p.1.deep_view())),
            categories: self.categories@.map_values(|p: (u64, Vec<String>)| (p.0, p.1.deep_view())),
            pending: self.pending_confessions@.map_values(
                |p: PendingSubmission| (p.confession_id, p@),
            ),
            next_id: self.next_pending_id,
        }
    }
}

/// Index of the first pair keyed `k`, or `None` when no pair is.
pub(crate) fn map_find_index<V>(v: &Vec<(u64, V)>, k: u64) -> (r: Option<usize>)
    ensures
        match r {
            Some(i) => i < v@.len() && v@[i as int].0 == k && (forall|j: int|
                0 <= j < i ==> (#[trigger] v@[j]).0 != k),
            None => forall|j: int| 0 <= j < v@.len() ==> (#[trigger] v@[j]).0 != k,
        },
{
    let len = v.len();
    let mut i: usize = 0;
    while i < len
        invariant
            len == v@.len(),
            i <= len,
            forall|j: int| 0 <= j < i ==> (#[trigger] v@[j]).0 != k,
        decreases len - i,
    {
        if v[i].0 == k {
            return Some(i);
        }
        i += 1;
    }
    None
}

/// Index of the cooldown record of `(community, submitter)`, if present.
fn record_find_index(v: &Vec<((u64, u64), u64)>, community: u64, submitter: u64) -> (r: Option<
    usize,
>)
    ensures
        match r {
            Some(i) => i < v@.len() && v@[i as int].0 == (community, submitter) && (forall|j: int|
                0 <= j < i ==> (#[trigger] v@[j]).0 != (community, submitter)),
            None => forall|j: int|
                0 <= j < v@.len() ==> (#[trigger] v@[j]).0 != (community, submitter),
        },
{
    let len = v.len();
    let mut i: usize = 0;
    while i < len
        invariant
            len == v@.len(),
            i <= len,
            forall|j: int| 0 <= j < i ==> (#[trigger] v@[j]).0 != (community, submitter),
        decreases len - i,
    {
        if v[i].0.0 == community && v[i].0.1 == submitter {
            assert(v@[i as int].0 == (community, submitter));
            return Some(i);
        }
        assert(v@[i as int].0 != (community, submitter));
        i += 1;
    }
    None
}

/// An element-wise copy of a vector of strings.
pub fn clone_string_vec(v: &Vec<String>) -> (r: Vec<String>)
    ensures
        r.deep_view() == v.deep_view(),
{
    let len = v.len();
    let mut out: Vec<String> = Vec::new();
    let mut i: usize = 0;
    while i < len
        invariant
            len == v@.len(),
            i <= len,
            out@.len() == i,
            forall|j: int| 0 <= j < i ==> (#[trigger] out@[j])@ == v@[j]@,
        decreases len - i,
    {
        out.push(v[i].clone());
        i += 1;
    }
    assert(out.deep_view() =~= v.deep_view());
    out
}

/// Whether some string of `v` has lowercase form `low`.
fn contains_lowered(v: &Vec<String>, low: &String) -> (r: bool)
    ensures
        r == has_matching(v.deep_view(), low@),
{
    let len = v.len();
    let ghost dv = v.deep_view();
    let mut i: usize = 0;
    while i < len
        invariant
            len == v@.len(),
            dv == v.deep_view(),
            i <= len,
            forall|j: int| 0 <= j < i ==> lower_of(#[trigger] dv[j]) != low@,
        decreases len - i,
    {
        let tl = lowercase(v[i].as_str());
        if tl.eq(low) {
            assert(lower_of(dv[i as int]) == low@);
            return true;
        }
        i += 1;
    }
    false
}

/// Whether some string of `v` equals `name` up to ASCII case.
fn contains_ascii(v: &Vec<String>, name: &String) -> (r: bool)
    ensures
        r == has_ascii_matching(v.deep_view(), name@),
{
    let len = v.len();
    let ghost dv = v.deep_view();
    let mut i: usize = 0;
    while i < len
        invariant
            len == v@.len(),
            dv == v.deep_view(),
            i <= len,
            forall|j: int| 0 <= j < i ==> !ascii_eq(#[trigger] dv[j], name@),
        decreases len - i,
    {
        if eq_ignore_ascii_case(v[i].as_str(), name.as_str()) {
            assert(ascii_eq(dv[i as int], name@));
            return true;
        }
        i += 1;
    }
    false
}

/// A copy of `v` without the strings whose lowercase form is `low`.
fn filter_lowered(v: &Vec<String>, low: &String) -> (r: Vec<String>)
    ensures
        r.deep_view() == remove_matching(v.deep_view(), low@),
{
    let len = v.len();
    let ghost dv = v.deep_view();
    let mut out: Vec<String> = Vec::new();
    let mut i: usize = 0;
    assert(dv.skip(0) =~= dv);
    while i < len
        invariant
            len == v@.len(),
            dv == v.deep_view(),
            i <= len,
            out.deep_view() + remove_matching(dv.skip(i as int), low@) == remove_matching(
                dv,
                low@,
            ),
        decreases len - i,
    {
        proof {
            assert(dv.skip(i as int)[0] == dv[i as int]);
            assert(dv.skip(i as int).drop_first() =~= dv.skip(i + 1));
        }
        let tl = lowercase(v[i].as_str());
        let ghost prev = out.deep_view();
        if !tl.eq(low) {
            out.push(v[i].clone());
            assert(out.deep_view() =~= prev.push(dv[i as int]));
            assert(remove_matching(dv.skip(i as int), low@) == seq![dv[i as int]]
                + remove_matching(dv.skip(i + 1), low@));
            assert(out.deep_view() + remove_matching(dv.skip(i + 1), low@) =~= remove_matching(
                dv,
                low@,
            ));
        } else {
            assert(remove_matching(dv.skip(i as int), low@) == remove_matching(
                dv.skip(i + 1),
                low@,
            ));
        }
        i += 1;
    }
    assert(dv.skip(len as int) =~= Seq::<Seq<char>>::empty());
    assert(out.deep_view() =~= remove_matching(dv, low@));
    out
}

/// A copy of `v` without the strings equal to `name` up to ASCII case.
fn filter_ascii(v: &Vec<String>, name: &String) -> (r: Vec<String>)
    ensures
        r.deep_view() == remove_ascii_matching(v.deep_view(), name@),
{
    let len = v.len();
    let ghost dv = v.deep_view();
    let mut out: Vec<String> = Vec::new();
    let mut i: usize = 0;
    assert(dv.skip(0) =~= dv);
    while i < len
        invariant
            len == v@.len(),
            dv == v.deep_view(),
            i <= len,
            out.deep_view() + remove_ascii_matching(dv.skip(i as int), name@)
                == remove_ascii_matching(dv, name@),
        decreases len - i,
    {
        proof {
            assert(dv.skip(i as int)[0] == dv[i as int]);
            assert(dv.skip(i as int).drop_first() =~= dv.skip(i + 1));
        }
        let ghost prev = out.deep_view();
        if !eq_ignore_ascii_case(v[i].as_str(), name.as_str()) {
            out.push(v[i].clone());
            assert(out.deep_view() =~= prev.push(dv[i as int]));
            assert(remove_ascii_matching(dv.skip(i as int), name@) == seq![dv[i as int]]
                + remove_ascii_matching(dv.skip(i + 1), name@));
            assert(out.deep_view() + remove_ascii_matching(dv.skip(i + 1), name@)
                =~= remove_ascii_matching(dv, name@));
        } else {
            assert(remove_ascii_matching(dv.skip(i as int), name@) == remove_ascii_matching(
                dv.skip(i + 1),
                name@,
            ));
        }
        i += 1;
    }
    assert(dv.skip(len as int) =~= Seq::<Seq<char>>::empty());
    assert(out.deep_view() =~= remove_ascii_matching(dv, name@));
    out
}

/// Index of the pending entry with the given id, if present.
fn pending_find_index(v: &Vec<PendingSubmission>, id: u64) -> (r: Option<usize>)
    ensures
        match r {
            Some(i) => i < v@.len() && v@[i as int].confession_id == id && (forall|j: int|
                0 <= j < i ==> (#[trigger] v@[j]).confession_id != id),
            None => forall|j: int| 0 <= j < v@.len() ==> (#[trigger] v@[j]).confession_id != id,
        },
{
    let len = v.len();
    let mut i: usize = 0;
    while i < len
        invariant
            len == v@.len(),
            i <= len,
            forall|j: int| 0 <= j < i ==> (#[trigger] v@[j]).confession_id != id,
        decreases len - i,
    {
        if v[i].confession_id == id {
            return Some(i);
        }
        i += 1;
    }
    None
}

/// A field-wise copy of a pending entry.
fn clone_pending(p: &PendingSubmission) -> (r: PendingSubmission)
    ensures
        r@ == p@,
{
    PendingSubmission {
        confession_id: p.confession_id,
        guild_id: p.guild_id,
        author_tag: p.author_tag.clone(),
        content: p.content.clone(),
        flagged_terms: clone_string_vec(&p.flagged_terms),
        timestamp: p.timestamp,
    }
}

/// An element-wise copy of a vector of integer pairs.
fn copy_pairs(v: &Vec<(u64, u64)>) -> (r: Vec<(u64, u64)>)
    ensures
        r@ == v@,
{
    let len = v.len();
    let mut out: Vec<(u64, u64)> = Vec::new();
    let mut i: usize = 0;
    while i < len
        invariant
            len == v@.len(),
            i <= len,
            out@ =~= v@.take(i as int),
        decreases len - i,
    {
        out.push(v[i]);
        assert(out@ =~= v@.take(i + 1));
        i += 1;
    }
    assert(v@.take(len as int) =~= v@);
    out
}

/// An element-wise copy of a keyed vector of string lists.
fn copy_list_map(v: &Vec<(u64, Vec<String>)>) -> (r: Vec<(u64, Vec<String>)>)
    ensures
        r@.len() == v@.len(),
        forall|i: int|
            0 <= i < r@.len() ==> (#[trigger] r@[i]).0 == v@[i].0 && r@[i].1.deep_view()
                == v@[i].1.deep_view(),
{
    let len = v.len();
    let mut out: Vec<(u64, Vec<String>)> = Vec::new();
    let mut i: usize = 0;
    while i < len
        invariant
            len == v@.len(),
            i <= len,
            out@.len() == i,
            forall|j: int|
                0 <= j < i ==> (#[trigger] out@[j]).0 == v@[j].0 && out@[j].1.deep_view()
                    == v@[j].1.deep_view(),
        decreases len - i,
    {
        out.push((v[i].0, clone_string_vec(&v[i].1)));
        i += 1;
    }
    out
}

impl Config {
    /// The store is well formed.
    pub open spec fn wf(self) -> bool {
        self@.wf()
    }

    /// A fresh store: no policies, no records, no pending entries; ids start
    /// at zero.
    pub fn new() -> (r: Config)
        ensures
            r.wf(),
            r@ == (StoreModel {
                destinations: Seq::empty(),
                cooldowns: Seq::empty(),
                records: Seq::empty(),
                blacklist: Seq::empty(),
                categories: Seq::empty(),
                pending: Seq::empty(),
                next_id: 0,
            }),
    {
        let r = Config {
            confession_threads: Vec::new(),
            cooldowns: Vec::new(),
            user_cooldowns: Vec::new(),
            blacklist: Vec::new(),
            categories: Vec::new(),
            pending_confessions: Vec::new(),
            next_pending_id: 0,
        };
        proof {
            assert(r@.destinations =~= Seq::<(u64, u64)>::empty());
            assert(r@.cooldowns =~= Seq::<(u64, u64)>::empty());
            assert(r@.records =~= Seq::<((u64, u64), u64)>::empty());
            assert(r@.blacklist =~= Seq::<(u64, Seq<Seq<char>>)>::empty());
            assert(r@.categories =~= Seq::<(u64, Seq<Seq<char>>)>::empty());
            assert(r@.pending =~= Seq::<(u64, PendingModel)>::empty());
        }
        r
    }

    /// The cooldown period of a community in seconds; the canonical default
    /// of one hour when the community has not set one.
    pub fn get_cooldown(&self, community: u64) -> (r: u64)
        ensures
            r == self@.cooldown(community),
    {
        match map_find_index(&self.cooldowns, community) {
            Some(i) => {
                proof {
                    lemma_assoc_find_at(self@.cooldowns, community, i as int);
                }
                self.cooldowns[i].1
            },
            None => {
                proof {
                    lemma_assoc_find_none(self@.cooldowns, community);
                }
                DEFAULT_COOLDOWN_SECONDS
            },
        }
    }

    /// Sets the cooldown period of a community; with a period of zero the
    /// gate never blocks. Every other policy and record is untouched.
    pub fn set_cooldown(&mut self, community: u64, seconds: u64)
        requires
            old(self).wf(),
        ensures
            final(self).wf(),
            final(self)@.cooldown(community) == seconds,
            forall|c2: u64|
                c2 != community ==> final(self)@.cooldown(c2) == old(self)@.cooldown(c2),
            final(self)@.destinations == old(self)@.destinations,
            final(self)@.records == old(self)@.records,
            final(self)@.blacklist == old(self)@.blacklist,
            final(self)@.categories == old(self)@.categories,
            final(self)@.pending == old(self)@.pending,
            final(self)@.next_id == old(self)@.next_id,
    {
        let ghost m0 = self@;
        match map_find_index(&self.cooldowns, community) {
            Some(i) => {
                self.cooldowns[i] = (community, seconds);
                proof {
                    assert(self@.cooldowns =~= m0.cooldowns.update(
                        i as int,
                        (community, seconds),
                    ));
                    lemma_assoc_find_update(m0.cooldowns, i as int, (community, seconds), community);
                    assert forall|c2: u64| c2 != community implies final(self)@.cooldown(c2)
                        == m0.cooldown(c2) by {
                        lemma_assoc_find_update(m0.cooldowns, i as int, (community, seconds), c2);
                    }
                    assert(forall|i2: int, j2: int|
                        0 <= i2 < j2 < self@.cooldowns.len()
                            ==> (#[trigger] self@.cooldowns[i2]).0
                            != (#[trigger] self@.cooldowns[j2]).0);
                }
            },
            None => {
                self.cooldowns.push((community, seconds));
                proof {
                    assert(self@.cooldowns =~= m0.cooldowns.push((community, seconds)));
                    lemma_assoc_find_none(m0.cooldowns, community);
                    assert forall|c2: u64| c2 != community implies final(self)@.cooldown(c2)
                        == m0.cooldown(c2) by {
                        lemma_assoc_find_push(m0.cooldowns, (community, seconds), c2);
                    }
                    lemma_assoc_find_push(m0.cooldowns, (community, seconds), community);
                    assert(forall|j: int|
                        0 <= j < m0.cooldowns.len() ==> (#[trigger] m0.cooldowns[j]).0
                            != community);
                    assert(forall|i2: int, j2: int|
                        0 <= i2 < j2 < self@.cooldowns.len()
                            ==> (#[trigger] self@.cooldowns[i2]).0
                            != (#[trigger] self@.cooldowns[j2]).0);
                }
            },
        }
    }

    /// Whether a submitter must still wait: `None` allows a submission now,
    /// `Some(rem)` blocks it for `rem` more seconds (always positive). A
    /// cooldown policy of zero always allows; so does an absent record.
    /// The caller's clock must not run behind the recorded time.
    pub fn check_cooldown(&self, community: u64, submitter: u64, current_time: u64) -> (r: Option<
        u64,
    >)
        requires
            self.wf(),
            self@.last_submission(community, submitter) matches Some(l) ==> l <= current_time,
        ensures
            match self@.check(community, submitter, current_time as int) {
                None => r is None,
                Some(rem) => r matches Some(x) && x == rem,
            },
    {
        let cd = self.get_cooldown(community);
        if cd == 0 {
            return None;
        }
        match record_find_index(&self.user_cooldowns, community, submitter) {
            Some(i) => {
                proof {
                    lemma_assoc_find_at(self@.records, (community, submitter), i as int);
                }
                let last = self.user_cooldowns[i].1;
                let elapsed = current_time - last;
                if elapsed < cd {
                    Some(cd - elapsed)
                } else {
                    None
                }
            },
            None => {
                proof {
                    lemma_assoc_find_none(self@.records, (community, submitter));
                }
                None
            },
        }
    }

    /// Records a submission time, overwriting any previous record for the
    /// same submitter in the same community. To be called only once a
    /// submission has been accepted for publication or queued for review;
    /// recording a blocked attempt would extend the wait unfairly.
    pub fn record_submission(&mut self, community: u64, submitter: u64, timestamp: u64)
        requires
            old(self).wf(),
        ensures
            final(self).wf(),
            final(self)@.last_submission(community, submitter) == Some(timestamp),
            forall|c2: u64, s2: u64|
                !(c2 == community && s2 == submitter)
                    ==> final(self)@.last_submission(c2, s2) == old(self)@.last_submission(c2, s2),
            final(self)@.destinations == old(self)@.destinations,
            final(self)@.cooldowns == old(self)@.cooldowns,
            final(self)@.blacklist == old(self)@.blacklist,
            final(self)@.categories == old(self)@.categories,
            final(self)@.pending == old(self)@.pending,
            final(self)@.next_id == old(self)@.next_id,
    {
        let ghost m0 = self@;
        match record_find_index(&self.user_cooldowns, community, submitter) {
            Some(i) => {
                self.user_cooldowns[i] = ((community, submitter), timestamp);
                proof {
                    assert(self@.records =~= m0.records.update(
                        i as int,
                        ((community, submitter), timestamp),
                    ));
                    lemma_assoc_find_update(
                        m0.records,
                        i as int,
                        ((community, submitter), timestamp),
                        (community, submitter),
                    );
                    assert forall|c2: u64, s2: u64| !(c2 == community && s2 == submitter) implies
                        final(self)@.last_submission(c2, s2) == m0.last_submission(c2, s2) by {
                        lemma_assoc_find_update(
                            m0.records,
                            i as int,
                            ((community, submitter), timestamp),
                            (c2, s2),
                        );
                    }
                    assert(forall|i2: int, j2: int|
                        0 <= i2 < j2 < self@.records.len() ==> (#[trigger] self@.records[i2]).0
                            != (#[trigger] self@.records[j2]).0);
                }
            },
            None => {
                self.user_cooldowns.push(((community, submitter), timestamp));
                proof {
                    assert(self@.records =~= m0.records.push(
                        ((community, submitter), timestamp),
                    ));
                    lemma_assoc_find_none(m0.records, (community, submitter));
                    lemma_assoc_find_push(
                        m0.records,
                        ((community, submitter), timestamp),
                        (community, submitter),
                    );
                    assert forall|c2: u64, s2: u64| !(c2 == community && s2 == submitter) implies
                        final(self)@.last_submission(c2, s2) == m0.last_submission(c2, s2) by {
                        lemma_assoc_find_push(
                            m0.records,
                            ((community, submitter), timestamp),
                            (c2, s2),
                        );
                    }
                    assert(forall|j: int|
                        0 <= j < m0.records.len() ==> (#[trigger] m0.records[j]).0
                            != (community, submitter));
                    assert(forall|i2: int, j2: int|
                        0 <= i2 < j2 < self@.records.len() ==> (#[trigger] self@.records[i2]).0
                            != (#[trigger] self@.records[j2]).0);
                }
            },
        }
    }

    /// The last recorded submission time of a submitter in a community.
    pub fn last_submission(&self, community: u64, submitter: u64) -> (r: Option<u64>)
        requires
            self.wf(),
        ensures
            r == self@.last_submission(community, submitter),
    {
        match record_find_index(&self.user_cooldowns, community, submitter) {
            Some(i) => {
                proof {
                    lemma_assoc_find_at(self@.records, (community, submitter), i as int);
                }
                Some(self.user_cooldowns[i].1)
            },
            None => {
                proof {
                    lemma_assoc_find_none(self@.records, (community, submitter));
                }
                None
            },
        }
    }

    /// The destination channel configured for a community, if any.
    pub fn get_destination(&self, community: u64) -> (r: Option<u64>)
        ensures
            r == self@.destination(community),
    {
        match map_find_index(&self.confession_threads, community) {
            Some(i) => {
                proof {
                    lemma_assoc_find_at(self@.destinations, community, i as int);
                }
                Some(self.confession_threads[i].1)
            },
            None => {
                proof {
                    lemma_assoc_find_none(self@.destinations, community);
                }
                None
            },
        }
    }

    /// Sets the destination channel where a community's accepted submissions
    /// are published. Every other policy and record is untouched.
    pub fn set_confession_thread(&mut self, community: u64, channel: u64)
        requires
            old(self).wf(),
        ensures
            final(self).wf(),
            final(self)@.destination(community) == Some(channel),
            forall|c2: u64|
                c2 != community ==> final(self)@.destination(c2) == old(self)@.destination(c2),
            final(self)@.cooldowns == old(self)@.cooldowns,
            final(self)@.records == old(self)@.records,
            final(self)@.blacklist == old(self)@.blacklist,
            final(self)@.categories == old(self)@.categories,
            final(self)@.pending == old(self)@.pending,
            final(self)@.next_id == old(self)@.next_id,
    {
        let ghost m0 = self@;
        match map_find_index(&self.confession_threads, community) {
            Some(i) => {
                self.confession_threads[i] = (community, channel);
                proof {
                    assert(self@.destinations =~= m0.destinations.update(
                        i as int,
                        (community, channel),
                    ));
                    lemma_assoc_find_update(
                        m0.destinations,
                        i as int,
                        (community, channel),
                        community,
                    );
                    assert forall|c2: u64| c2 != community implies final(self)@.destination(c2)
                        == m0.destination(c2) by {
                        lemma_assoc_find_update(
                            m0.destinations,
                            i as int,
                            (community, channel),
                            c2,
                        );
                    }
                    assert(forall|i2: int, j2: int|
                        0 <= i2 < j2 < self@.destinations.len()
                            ==> (#[trigger] self@.destinations[i2]).0
                            != (#[trigger] self@.destinations[j2]).0);
                }
            },
            None => {
                self.confession_threads.push((community, channel));
                proof {
                    assert(self@.destinations =~= m0.destinations.push((community, channel)));
                    lemma_assoc_find_none(m0.destinations, community);
                    lemma_assoc_find_push(m0.destinations, (community, channel), community);
                    assert forall|c2: u64| c2 != community implies final(self)@.destination(c2)
                        == m0.destination(c2) by {
                        lemma_assoc_find_push(m0.destinations, (community, channel), c2);
                    }
                    assert(forall|j: int|
                        0 <= j < m0.destinations.len() ==> (#[trigger] m0.destinations[j]).0
                            != community);
                    assert(forall|i2: int, j2: int|
                        0 <= i2 < j2 < self@.destinations.len()
                            ==> (#[trigger] self@.destinations[i2]).0
                            != (#[trigger] self@.destinations[j2]).0);
                }
            },
        }
    }

    /// The blacklist terms of a community, in configured order; empty when
    /// none are set.
    pub fn blacklist_terms(&self, community: u64) -> (r: Vec<String>)
        ensures
            r.deep_view() == self@.terms(community),
    {
        match map_find_index(&self.blacklist, community) {
            Some(i) => {
                proof {
                    lemma_assoc_find_at(self@.blacklist, community, i as int);
                }
                clone_string_vec(&self.blacklist[i].1)
            },
            None => {
                proof {
                    lemma_assoc_find_none(self@.blacklist, community);
                }
                let r: Vec<String> = Vec::new();
                assert(r.deep_view() =~= Seq::<Seq<char>>::empty());
                r
            },
        }
    }

    /// Adds a term to a community's blacklist unless a term with the same
    /// lowercase form is already there. Returns whether it was added; a
    /// duplicate leaves the list unchanged. Every other policy and record is
    /// untouched.
    pub fn blacklist_add(&mut self, community: u64, term: String) -> (added: bool)
        requires
            old(self).wf(),
        ensures
            final(self).wf(),
            added == !has_matching(old(self)@.terms(community), lower_of(term@)),
            final(self)@.terms(community) == if added {
                old(self)@.terms(community).push(term@)
            } else {
                old(self)@.terms(community)
            },
            forall|c2: u64| c2 != community ==> final(self)@.terms(c2) == old(self)@.terms(c2),
            final(self)@.destinations == old(self)@.destinations,
            final(self)@.cooldowns == old(self)@.cooldowns,
            final(self)@.records == old(self)@.records,
            final(self)@.categories == old(self)@.categories,
            final(self)@.pending == old(self)@.pending,
            final(self)@.next_id == old(self)@.next_id,
    {
        let ghost m0 = self@;
        let term_low = lowercase(term.as_str());
        match map_find_index(&self.blacklist, community) {
            Some(i) => {
                proof {
                    lemma_assoc_find_at(m0.blacklist, community, i as int);
                }
                if contains_lowered(&self.blacklist[i].1, &term_low) {
                    false
                } else {
                    let mut list = clone_string_vec(&self.blacklist[i].1);
                    list.push(term);
                    assert(list.deep_view() =~= m0.terms(community).push(term@));
                    self.blacklist[i] = (community, list);
                    proof {
                        assert(self@.blacklist =~= m0.blacklist.update(
                            i as int,
                            (community, m0.terms(community).push(term@)),
                        ));
                        lemma_assoc_find_update(
                            m0.blacklist,
                            i as int,
                            (community, m0.terms(community).push(term@)),
                            community,
                        );
                        assert forall|c2: u64| c2 != community implies final(self)@.terms(c2)
                            == m0.terms(c2) by {
                            lemma_assoc_find_update(
                                m0.blacklist,
                                i as int,
                                (community, m0.terms(community).push(term@)),
                                c2,
                            );
                        }
                        assert(forall|i2: int, j2: int|
                            0 <= i2 < j2 < self@.blacklist.len()
                                ==> (#[trigger] self@.blacklist[i2]).0
                                != (#[trigger] self@.blacklist[j2]).0);
                    }
                    true
                }
            },
            None => {
                proof {
                    lemma_assoc_find_none(m0.blacklist, community);
                }
                let mut list: Vec<String> = Vec::new();
                list.push(term);
                assert(list.deep_view() =~= Seq::<Seq<char>>::empty().push(term@));
                self.blacklist.push((community, list));
                proof {
                    assert(self@.blacklist =~= m0.blacklist.push(
                        (community, Seq::<Seq<char>>::empty().push(term@)),
                    ));
                    lemma_assoc_find_push(
                        m0.blacklist,
                        (community, Seq::<Seq<char>>::empty().push(term@)),
                        community,
                    );
                    assert forall|c2: u64| c2 != community implies final(self)@.terms(c2)
                        == m0.terms(c2) by {
                        lemma_assoc_find_push(
                            m0.blacklist,
                            (community, Seq::<Seq<char>>::empty().push(term@)),
                            c2,
                        );
                    }
                    assert(m0.terms(community) =~= Seq::<Seq<char>>::empty());
                    assert(forall|j: int|
                        0 <= j < m0.blacklist.len() ==> (#[trigger] m0.blacklist[j]).0
                            != community);
                    assert(forall|i2: int, j2: int|
                        0 <= i2 < j2 < self@.blacklist.len()
                            ==> (#[trigger] self@.blacklist[i2]).0
                            != (#[trigger] self@.blacklist[j2]).0);
                }
                true
            },
        }
    }

    /// Removes every term whose lowercase form matches the given term's from
    /// a community's blacklist. Returns whether anything was removed. Every
    /// other policy and record is untouched.
    pub fn blacklist_remove(&mut self, community: u64, term: String) -> (removed: bool)
        requires
            old(self).wf(),
        ensures
            final(self).wf(),
            removed == has_matching(old(self)@.terms(community), lower_of(term@)),
            final(self)@.terms(community) == remove_matching(
                old(self)@.terms(community),
                lower_of(term@),
            ),
            forall|c2: u64| c2 != community ==> final(self)@.terms(c2) == old(self)@.terms(c2),
            final(self)@.destinations == old(self)@.destinations,
            final(self)@.cooldowns == old(self)@.cooldowns,
            final(self)@.records == old(self)@.records,
            final(self)@.categories == old(self)@.categories,
            final(self)@.pending == old(self)@.pending,
            final(self)@.next_id == old(self)@.next_id,
    {
        let ghost m0 = self@;
        let term_low = lowercase(term.as_str());
        match map_find_index(&self.blacklist, community) {
            Some(i) => {
                proof {
                    lemma_assoc_find_at(m0.blacklist, community, i as int);
                }
                let old_len = self.blacklist[i].1.len();
                let kept = filter_lowered(&self.blacklist[i].1, &term_low);
                let removed = kept.len() < old_len;
                proof {
                    lemma_remove_matching_len(m0.terms(community), lower_of(term@));
                }
                self.blacklist[i] = (community, kept);
                proof {
                    assert(self@.blacklist =~= m0.blacklist.update(
                        i as int,
                        (community, remove_matching(m0.terms(community), lower_of(term@))),
                    ));
                    lemma_assoc_find_update(
                        m0.blacklist,
                        i as int,
                        (community, remove_matching(m0.terms(community), lower_of(term@))),
                        community,
                    );
                    assert forall|c2: u64| c2 != community implies final(self)@.terms(c2)
                        == m0.terms(c2) by {
                        lemma_assoc_find_update(
                            m0.blacklist,
                            i as int,
                            (community, remove_matching(m0.terms(community), lower_of(term@))),
                            c2,
                        );
                    }
                    assert(forall|i2: int, j2: int|
                        0 <= i2 < j2 < self@.blacklist.len()
                            ==> (#[trigger] self@.blacklist[i2]).0
                            != (#[trigger] self@.blacklist[j2]).0);
                }
                removed
            },
            None => {
                proof {
                    lemma_assoc_find_none(m0.blacklist, community);
                    assert(m0.terms(community) =~= Seq::<Seq<char>>::empty());
                    assert(remove_matching(m0.terms(community), lower_of(term@))
                        =~= Seq::<Seq<char>>::empty());
                }
                false
            },
        }
    }

    /// The category labels of a community, in configured order; empty when
    /// none are set.
    pub fn get_categories(&self, community: u64) -> (r: Vec<String>)
        ensures
            r.deep_view() == self@.category_list(community),
    {
        match map_find_index(&self.categories, community) {
            Some(i) => {
                proof {
                    lemma_assoc_find_at(self@.categories, community, i as int);
                }
                clone_string_vec(&self.categories[i].1)
            },
            None => {
                proof {
                    lemma_assoc_find_none(self@.categories, community);
                }
                let r: Vec<String> = Vec::new();
                assert(r.deep_view() =~= Seq::<Seq<char>>::empty());
                r
            },
        }
    }

    /// Adds a category label for a community. An empty label is refused, and
    /// a label equal to an existing one up to ASCII case is a duplicate;
    /// neither changes anything. Every other policy and record is untouched.
    pub fn add_category(&mut self, community: u64, category_name: String) -> (r:
        CategoryAddOutcome)
        requires
            old(self).wf(),
        ensures
            final(self).wf(),
            r == if category_name@.len() == 0 {
                CategoryAddOutcome::EmptyName
            } else if has_ascii_matching(old(self)@.category_list(community), category_name@) {
                CategoryAddOutcome::Duplicate
            } else {
                CategoryAddOutcome::Added
            },
            final(self)@.category_list(community) == if r == CategoryAddOutcome::Added {
                old(self)@.category_list(community).push(category_name@)
            } else {
                old(self)@.category_list(community)
            },
            forall|c2: u64|
                c2 != community ==> final(self)@.category_list(c2) == old(self)@.category_list(c2),
            final(self)@.destinations == old(self)@.destinations,
            final(self)@.cooldowns == old(self)@.cooldowns,
            final(self)@.records == old(self)@.records,
            final(self)@.blacklist == old(self)@.blacklist,
            final(self)@.pending == old(self)@.pending,
            final(self)@.next_id == old(self)@.next_id,
    {
        let ghost m0 = self@;
        if category_name.as_str().is_empty() {
            return CategoryAddOutcome::EmptyName;
        }
        match map_find_index(&self.categories, community) {
            Some(i) => {
                proof {
                    lemma_assoc_find_at(m0.categories, community, i as int);
                }
                if contains_ascii(&self.categories[i].1, &category_name) {
                    CategoryAddOutcome::Duplicate
                } else {
                    let mut list = clone_string_vec(&self.categories[i].1);
                    list.push(category_name);
                    assert(list.deep_view() =~= m0.category_list(community).push(
                        list@[list@.len() - 1]@,
                    ));
                    self.categories[i] = (community, list);
                    proof {
                        assert(self@.categories =~= m0.categories.update(
                            i as int,
                            self@.categories[i as int],
                        ));
                        lemma_assoc_find_update(
                            m0.categories,
                            i as int,
                            self@.categories[i as int],
                            community,
                        );
                        assert forall|c2: u64| c2 != community implies final(self)@.category_list(
                            c2,
                        ) == m0.category_list(c2) by {
                            lemma_assoc_find_update(
                                m0.categories,
                                i as int,
                                self@.categories[i as int],
                                c2,
                            );
                        }
                        assert(forall|i2: int, j2: int|
                            0 <= i2 < j2 < self@.categories.len()
                                ==> (#[trigger] self@.categories[i2]).0
                                != (#[trigger] self@.categories[j2]).0);
                    }
                    CategoryAddOutcome::Added
                }
            },
            None => {
                proof {
                    lemma_assoc_find_none(m0.categories, community);
                    assert(m0.category_list(community) =~= Seq::<Seq<char>>::empty());
                }
                let mut list: Vec<String> = Vec::new();
                list.push(category_name);
                assert(list.deep_view() =~= m0.category_list(community).push(list@[0]@));
                self.categories.push((community, list));
                proof {
                    assert(self@.categories =~= m0.categories.push(
                        self@.categories[m0.categories.len() as int],
                    ));
                    lemma_assoc_find_push(
                        m0.categories,
                        self@.categories[m0.categories.len() as int],
                        community,
                    );
                    assert forall|c2: u64| c2 != community implies final(self)@.category_list(c2)
                        == m0.category_list(c2) by {
                        lemma_assoc_find_push(
                            m0.categories,
                            self@.categories[m0.categories.len() as int],
                            c2,
                        );
                    }
                    assert(forall|j: int|
                        0 <= j < m0.categories.len() ==> (#[trigger] m0.categories[j]).0
                            != community);
                    assert(forall|i2: int, j2: int|
                        0 <= i2 < j2 < self@.categories.len()
                            ==> (#[trigger] self@.categories[i2]).0
                            != (#[trigger] self@.categories[j2]).0);
                }
                CategoryAddOutcome::Added
            },
        }
    }

    /// Removes every category label equal to the given one up to ASCII case
    /// from a community's list. An empty label is refused; an absent one is
    /// reported as not found. Every other policy and record is untouched.
    pub fn remove_category(&mut self, community: u64, category_name: String) -> (r:
        CategoryRemoveOutcome)
        requires
            old(self).wf(),
        ensures
            final(self).wf(),
            r == if category_name@.len() == 0 {
                CategoryRemoveOutcome::EmptyName
            } else if has_ascii_matching(old(self)@.category_list(community), category_name@) {
                CategoryRemoveOutcome::Removed
            } else {
                CategoryRemoveOutcome::NotFound
            },
            final(self)@.category_list(community) == if r == CategoryRemoveOutcome::Removed {
                remove_ascii_matching(old(self)@.category_list(community), category_name@)
            } else {
                old(self)@.category_list(community)
            },
            forall|c2: u64|
                c2 != community ==> final(self)@.category_list(c2) == old(self)@.category_list(c2),
            final(self)@.destinations == old(self)@.destinations,
            final(self)@.cooldowns == old(self)@.cooldowns,
            final(self)@.records == old(self)@.records,
            final(self)@.blacklist == old(self)@.blacklist,
            final(self)@.pending == old(self)@.pending,
            final(self)@.next_id == old(self)@.next_id,
    {
        let ghost m0 = self@;
        if category_name.as_str().is_empty() {
            return CategoryRemoveOutcome::EmptyName;
        }
        match map_find_index(&self.categories, community) {
            Some(i) => {
                proof {
                    lemma_assoc_find_at(m0.categories, community, i as int);
                }
                let old_len = self.categories[i].1.len();
                let kept = filter_ascii(&self.categories[i].1, &category_name);
                let removed = kept.len() < old_len;
                proof {
                    lemma_remove_ascii_matching_len(m0.category_list(community), category_name@);
                }
                if !removed {
                    assert(!has_ascii_matching(m0.category_list(community), category_name@));
                    return CategoryRemoveOutcome::NotFound;
                }
                self.categories[i] = (community, kept);
                proof {
                    assert(self@.categories =~= m0.categories.update(
                        i as int,
                        (community, remove_ascii_matching(
                            m0.category_list(community),
                            category_name@,
                        )),
                    ));
                    lemma_assoc_find_update(
                        m0.categories,
                        i as int,
                        (community, remove_ascii_matching(
                            m0.category_list(community),
                            category_name@,
                        )),
                        community,
                    );
                    assert forall|c2: u64| c2 != community implies final(self)@.category_list(c2)
                        == m0.category_list(c2) by {
                        lemma_assoc_find_update(
                            m0.categories,
                            i as int,
                            (community, remove_ascii_matching(
                                m0.category_list(community),
                                category_name@,
                            )),
                            c2,
                        );
                    }
                    assert(forall|i2: int, j2: int|
                        0 <= i2 < j2 < self@.categories.len()
                            ==> (#[trigger] self@.categories[i2]).0
                            != (#[trigger] self@.categories[j2]).0);
                }
                CategoryRemoveOutcome::Removed
            },
            None => {
                proof {
                    lemma_assoc_find_none(m0.categories, community);
                    assert(m0.category_list(community) =~= Seq::<Seq<char>>::empty());
                }
                CategoryRemoveOutcome::NotFound
            },
        }
    }

    /// Stores a flagged submission in the review queue under a fresh id and
    /// returns that id. The id is the current `next_id`, never issued
    /// before, so entries never collide. Every policy and record is
    /// untouched.
    pub fn enqueue(
        &mut self,
        community: u64,
        author_tag: String,
        content: String,
        flagged_terms: Vec<String>,
        timestamp: u64,
    ) -> (id: u64)
        requires
            old(self).wf(),
            old(self)@.next_id < u64::MAX,
        ensures
            final(self).wf(),
            id == old(self)@.next_id,
            old(self)@.pending_entry(id) is None,
            final(self)@.pending == old(self)@.pending.push(
                (id, PendingModel {
                    confession_id: id,
                    guild_id: community,
                    author_tag: author_tag@,
                    content: content@,
                    flagged_terms: flagged_terms.deep_view(),
                    timestamp: timestamp,
                }),
            ),
            final(self)@.next_id == old(self)@.next_id + 1,
            final(self)@.destinations == old(self)@.destinations,
            final(self)@.cooldowns == old(self)@.cooldowns,
            final(self)@.records == old(self)@.records,
            final(self)@.blacklist == old(self)@.blacklist,
            final(self)@.categories == old(self)@.categories,
    {
        let ghost m0 = self@;
        let id = self.next_pending_id;
        proof {
            assert(forall|j: int|
                0 <= j < m0.pending.len() ==> (#[trigger] m0.pending[j]).0 != id);
            lemma_assoc_find_none(m0.pending, id);
        }
        let entry = PendingSubmission {
            confession_id: id,
            guild_id: community,
            author_tag: author_tag,
            content: content,
            flagged_terms: flagged_terms,
            timestamp: timestamp,
        };
        let ghost ev = entry@;
        self.pending_confessions.push(entry);
        self.next_pending_id = id + 1;
        proof {
            assert(self@.pending =~= m0.pending.push((id, ev)));
            assert(forall|i2: int, j2: int|
                0 <= i2 < j2 < self@.pending.len() ==> (#[trigger] self@.pending[i2]).0
                    != (#[trigger] self@.pending[j2]).0);
            assert(forall|i2: int|
                0 <= i2 < self@.pending.len() ==> (#[trigger] self@.pending[i2]).0
                    < self@.next_id);
        }
        id
    }

    /// The pending submission stored under an id, if any; a copy, leaving
    /// the queue untouched.
    pub fn get_pending(&self, confession_id: u64) -> (r: Option<PendingSubmission>)
        requires
            self.wf(),
        ensures
            match r {
                Some(p) => self@.pending_entry(confession_id) == Some(p@),
                None => self@.pending_entry(confession_id) is None,
            },
    {
        match pending_find_index(&self.pending_confessions, confession_id) {
            Some(i) => {
                proof {
                    lemma_assoc_find_unique(self@.pending, confession_id, i as int);
                }
                Some(clone_pending(&self.pending_confessions[i]))
            },
            None => {
                proof {
                    assert(forall|j: int|
                        0 <= j < self@.pending.len() ==> (#[trigger] self@.pending[j]).0
                            != confession_id);
                    lemma_assoc_find_none(self@.pending, confession_id);
                }
                None
            },
        }
    }

    /// Removes and returns the pending entry with the given id, but only
    /// when it exists and belongs to the calling community. An unknown id is
    /// not found; a foreign community's id leaves the entry exactly where it
    /// was, so cross-community moderators can neither publish nor destroy
    /// another community's queue. Every policy and record is untouched.
    pub fn resolve_approve(&mut self, confession_id: u64, community: u64) -> (r: Result<
        PendingSubmission,
        ResolveError,
    >)
        requires
            old(self).wf(),
        ensures
            final(self).wf(),
            match resolution_of(old(self)@, confession_id, community) {
                Err(e) => {
                    &&& r == Result::<PendingSubmission, ResolveError>::Err(e)
                    &&& final(self)@ == old(self)@
                },
                Ok(p) => {
                    &&& r matches Ok(entry) && entry@ == p
                    &&& final(self)@.pending == queue_after(old(self)@, confession_id, community)
                    &&& final(self)@.destinations == old(self)@.destinations
                    &&& final(self)@.cooldowns == old(self)@.cooldowns
                    &&& final(self)@.records == old(self)@.records
                    &&& final(self)@.blacklist == old(self)@.blacklist
                    &&& final(self)@.categories == old(self)@.categories
                    &&& final(self)@.next_id == old(self)@.next_id
                },
            },
    {
        let ghost m0 = self@;
        match pending_find_index(&self.pending_confessions, confession_id) {
            Some(i) => {
                proof {
                    lemma_assoc_find_unique(m0.pending, confession_id, i as int);
                }
                if self.pending_confessions[i].guild_id != community {
                    Err(ResolveError::WrongCommunity)
                } else {
                    let entry = self.pending_confessions.remove(i);
                    proof {
                        assert(self@.pending =~= m0.pending.remove(i as int));
                        lemma_assoc_remove_is_index_remove(m0.pending, confession_id, i as int);
                        lemma_assoc_remove(m0.pending, confession_id, confession_id);
                        assert(forall|j: int|
                            0 <= j < self@.pending.len() ==> #[trigger] self@.pending[j]
                                == if j < i {
                                m0.pending[j]
                            } else {
                                m0.pending[j + 1]
                            });
                        assert(forall|j: int|
                            0 <= j < self@.pending.len()
                                ==> (#[trigger] self@.pending[j]).1.confession_id
                                == self@.pending[j].0);
                        assert(forall|j: int|
                            0 <= j < self@.pending.len() ==> (#[trigger] self@.pending[j]).0
                                < self@.next_id);
                    }
                    Ok(entry)
                }
            },
            None => {
                proof {
                    assert(forall|j: int|
                        0 <= j < m0.pending.len() ==> (#[trigger] m0.pending[j]).0
                            != confession_id);
                    lemma_assoc_find_none(m0.pending, confession_id);
                }
                Err(ResolveError::NotFound)
            },
        }
    }

    /// Discards the pending entry with the given id, under the same
    /// ownership rule as approval: an unknown id is not found, a foreign
    /// community's entry is left untouched. Every policy and record is
    /// untouched.
    pub fn resolve_reject(&mut self, confession_id: u64, community: u64) -> (r: Result<
        (),
        ResolveError,
    >)
        requires
            old(self).wf(),
        ensures
            final(self).wf(),
            match resolution_of(old(self)@, confession_id, community) {
                Err(e) => {
                    &&& r == Result::<(), ResolveError>::Err(e)
                    &&& final(self)@ == old(self)@
                },
                Ok(p) => {
                    &&& r == Result::<(), ResolveError>::Ok(())
                    &&& final(self)@.pending == queue_after(old(self)@, confession_id, community)
                    &&& final(self)@.destinations == old(self)@.destinations
                    &&& final(self)@.cooldowns == old(self)@.cooldowns
                    &&& final(self)@.records == old(self)@.records
                    &&& final(self)@.blacklist == old(self)@.blacklist
                    &&& final(self)@.categories == old(self)@.categories
                    &&& final(self)@.next_id == old(self)@.next_id
                },
            },
    {
        match self.resolve_approve(confession_id, community) {
            Ok(_) => Ok(()),
            Err(e) => Err(e),
        }
    }

    /// Whether another pending id can still be issued. Exhausting the id
    /// space would take far longer than any deployment, but a caller that
    /// wants certainty can ask.
    pub fn has_id_capacity(&self) -> (r: bool)
        ensures
            r == (self@.next_id < u64::MAX),
    {
        self.next_pending_id < u64::MAX
    }

    /// Every (community, destination) entry, for persistence.
    pub fn destination_entries(&self) -> (r: Vec<(u64, u64)>)
        ensures
            r@ == self@.destinations,
    {
        copy_pairs(&self.confession_threads)
    }

    /// Every (community, cooldown seconds) entry, for persistence.
    pub fn cooldown_entries(&self) -> (r: Vec<(u64, u64)>)
        ensures
            r@ == self@.cooldowns,
    {
        copy_pairs(&self.cooldowns)
    }

    /// Every (community, blacklist terms) entry, for persistence.
    pub fn blacklist_entries(&self) -> (r: Vec<(u64, Vec<String>)>)
        ensures
            r@.len() == self@.blacklist.len(),
            forall|i: int|
                0 <= i < r@.len() ==> (#[trigger] r@[i]).0 == self@.blacklist[i].0 && r@[i].1.deep_view()
                    == self@.blacklist[i].1,
    {
        copy_list_map(&self.blacklist)
    }

    /// Every (community, category labels) entry, for persistence.
    pub fn category_entries(&self) -> (r: Vec<(u64, Vec<String>)>)
        ensures
            r@.len() == self@.categories.len(),
            forall|i: int|
                0 <= i < r@.len() ==> (#[trigger] r@[i]).0 == self@.categories[i].0 && r@[i].1.deep_view()
                    == self@.categories[i].1,
    {
        copy_list_map(&self.categories)
    }

    /// Every pending submission, as copies in queue order, for persistence.
    pub fn pending_entries(&self) -> (r: Vec<PendingSubmission>)
        ensures
            r.deep_view() == pending_values(self@.pending),
    {
        let len = self.pending_confessions.len();
        let mut out: Vec<PendingSubmission> = Vec::new();
        let mut i: usize = 0;
        while i < len
            invariant
                len == self.pending_confessions@.len(),
                len == self@.pending.len(),
                i <= len,
                out.deep_view() =~= pending_values(self@.pending).take(i as int),
            decreases len - i,
        {
            let copy = clone_pending(&self.pending_confessions[i]);
            let ghost cv = copy@;
            let ghost prev = out.deep_view();
            out.push(copy);
            proof {
                assert(out.deep_view() =~= prev.push(cv));
                assert(cv == pending_values(self@.pending)[i as int]);
                assert(out.deep_view() =~= pending_values(self@.pending).take(i + 1));
            }
            i += 1;
        }
        assert(pending_values(self@.pending).take(len as int) =~= pending_values(self@.pending));
        out
    }

    /// Puts a previously persisted pending entry back in the queue under its
    /// original id, bumping the id counter past it so later ids stay fresh.
    /// Returns whether it was accepted: an id already queued, or one at the
    /// very top of the id space, is refused and nothing changes.
    pub fn restore_pending(&mut self, entry: PendingSubmission) -> (accepted: bool)
        requires
            old(self).wf(),
        ensures
            final(self).wf(),
            accepted == (old(self)@.pending_entry(entry.confession_id) is None
                && entry.confession_id < u64::MAX),
            accepted ==> {
                &&& final(self)@.pending == old(self)@.pending.push(
                    (entry.confession_id, entry@),
                )
                &&& final(self)@.next_id == if old(self)@.next_id > entry.confession_id {
                    old(self)@.next_id as int
                } else {
                    entry.confession_id + 1
                }
            },
            !accepted ==> final(self)@ == old(self)@,
            final(self)@.destinations == old(self)@.destinations,
            final(self)@.cooldowns == old(self)@.cooldowns,
            final(self)@.records == old(self)@.records,
            final(self)@.blacklist == old(self)@.blacklist,
            final(self)@.categories == old(self)@.categories,
    {
        let ghost m0 = self@;
        if entry.confession_id == u64::MAX {
            match pending_find_index(&self.pending_confessions, entry.confession_id) {
                Some(i) => {
                    proof {
                        lemma_assoc_find_unique(m0.pending, entry.confession_id, i as int);
                    }
                },
                None => {
                    proof {
                        assert(forall|j: int|
                            0 <= j < m0.pending.len() ==> (#[trigger] m0.pending[j]).0
                                != entry.confession_id);
                        lemma_assoc_find_none(m0.pending, entry.confession_id);
                    }
                },
            }
            return false;
        }
        match pending_find_index(&self.pending_confessions, entry.confession_id) {
            Some(i) => {
                proof {
                    lemma_assoc_find_unique(m0.pending, entry.confession_id, i as int);
                }
                false
            },
            None => {
                proof {
                    assert(forall|j: int|
                        0 <= j < m0.pending.len() ==> (#[trigger] m0.pending[j]).0
                            != entry.confession_id);
                    lemma_assoc_find_none(m0.pending, entry.confession_id);
                }
                let id = entry.confession_id;
                let ghost ev = entry@;
                self.pending_confessions.push(entry);
                if self.next_pending_id <= id {
                    self.next_pending_id = id + 1;
                }
                proof {
                    assert(self@.pending =~= m0.pending.push((id, ev)));
                    assert(forall|i2: int, j2: int|
                        0 <= i2 < j2 < self@.pending.len() ==> (#[trigger] self@.pending[i2]).0
                            != (#[trigger] self@.pending[j2]).0);
                    assert(forall|i2: int|
                        0 <= i2 < self@.pending.len() ==> (#[trigger] self@.pending[i2]).0
                            < self@.next_id);
                }
                true
            },
        }
    }

    /// The pending submissions owned by a community, as copies, in queue
    /// order (the order they were enqueued in).
    pub fn list_pending(&self, community: u64) -> (r: Vec<PendingSubmission>)
        ensures
            r.deep_view() == pending_for(self@.pending, community),
    {
        let ghost mp = self@.pending;
        let len = self.pending_confessions.len();
        let mut out: Vec<PendingSubmission> = Vec::new();
        let mut i: usize = 0;
        assert(mp.skip(0) =~= mp);
        while i < len
            invariant
                len == self.pending_confessions@.len(),
                mp == self@.pending,
                mp.len() == len,
                i <= len,
                out.deep_view() + pending_for(mp.skip(i as int), community) == pending_for(
                    mp,
                    community,
                ),
            decreases len - i,
        {
            proof {
                assert(mp.skip(i as int)[0] == mp[i as int]);
                assert(mp.skip(i as int).drop_first() =~= mp.skip(i + 1));
            }
            let ghost prev = out.deep_view();
            if self.pending_confessions[i].guild_id == community {
                let copy = clone_pending(&self.pending_confessions[i]);
                out.push(copy);
                assert(out.deep_view() =~= prev.push(mp[i as int].1));
                assert(out.deep_view() + pending_for(mp.skip(i + 1), community) =~= pending_for(
                    mp,
                    community,
                ));
            } else {
                assert(pending_for(mp.skip(i as int), community) == pending_for(
                    mp.skip(i + 1),
                    community,
                ));
            }
            i += 1;
        }
        assert(mp.skip(len as int) =~= Seq::<(u64, PendingModel)>::empty());
        assert(out.deep_view() =~= pending_for(mp, community));
        out
    }
}

} // verus!
