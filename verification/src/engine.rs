//! The follower event aggregation engine: one explicitly constructed owner
//! of the known-follower set and the two event queues, mutated per poll or
//! injection request.

use vstd::prelude::*;
use vstd::string::StringExecFns;

use crate::combine::combine;
use crate::dedup::{first_occurrences, key_set};
use crate::identity::Identity;
use crate::known::KnownFollowerSet;
use crate::queue::{evict_real_spec, evict_test_spec, EventQueue, QueueEntry, TestQueue};
use crate::token::{lemma_test_id_parses, make_test_id, test_token_millis};

verus! {

/// The identities of a poll result, or nothing when the upstream fetch
/// failed or no session was available.
pub open spec fn poll_views(poll: Option<Vec<Identity>>) -> Seq<Identity> {
    match poll {
        Some(v) => v@,
        None => Seq::<Identity>::empty(),
    }
}

/// The given identities as real-queue entries stamped with `now`.
pub open spec fn stamped(s: Seq<Identity>, now: u64) -> Seq<QueueEntry> {
    Seq::new(s.len(), |i: int| QueueEntry { identity: s[i], enqueued_at: now })
}

/// The identities carried by a sequence of real-queue entries, in order.
pub open spec fn idents_of(s: Seq<QueueEntry>) -> Seq<Identity> {
    Seq::new(s.len(), |i: int| s[i].identity)
}

/// What the known-follower set holds after a poll: reconciled against any
/// successful poll result — an empty one drops every key, so that a later
/// re-follow counts as new — and untouched only when the fetch failed or no
/// session was available.
pub open spec fn known_after_poll(
    known0: Set<Seq<char>>,
    poll: Option<Vec<Identity>>,
) -> Set<Seq<char>> {
    match poll {
        Some(v) => key_set(v@),
        None => known0,
    }
}

/// What the real queue holds after a poll: on a successful fetch the newly
/// seen identities are appended stamped with `now`; either way the front is
/// then pruned of expired entries.
pub open spec fn real_after_poll(
    real0: Seq<QueueEntry>,
    known0: Set<Seq<char>>,
    poll: Option<Vec<Identity>>,
    now: u64,
) -> Seq<QueueEntry> {
    match poll {
        Some(v) => evict_real_spec(real0 + stamped(first_occurrences(v@, known0), now), now),
        None => evict_real_spec(real0, now),
    }
}

/// Re-polling with an unchanged upstream result after a first
/// reconciliation enqueues nothing: every key is by then known, so the real
/// queue is only pruned of expired entries.
pub proof fn lemma_repoll_enqueues_nothing(real1: Seq<QueueEntry>, poll: Vec<Identity>, now: u64)
    ensures
        real_after_poll(real1, key_set(poll@), Some(poll), now) == evict_real_spec(real1, now),
{
    crate::dedup::lemma_repoll_yields_nothing(poll@);
    assert(real1 + stamped(first_occurrences(poll@, key_set(poll@)), now) =~= real1);
}

/// The engine: known-follower bookkeeping plus the real and the test queue.
/// Constructed once at startup and handed by reference to request handlers;
/// every mutation of the three structures goes through one exclusive borrow
/// of the whole engine, so a poll's reconcile-and-enqueue sequence is never
/// interleaved with another request's.
pub struct FollowerEngine {
    known: KnownFollowerSet,
    real_queue: EventQueue,
    test_queue: TestQueue,
}

/// Relies on uuid::Uuid::new_v4 and its hyphenated Display form: a freshly
/// drawn random identifier rendered as 36 characters. The value depends on
/// the process's random source, so nothing more is claimed of it.
#[verifier::external_body]
fn fresh_token() -> (r: String)
    ensures
        r@.len() == 36,
{
    uuid::Uuid::new_v4().to_string()
}

/// Relies on chrono::Local::now and its formatting: the current wall-clock
/// time rendered for humans. The value depends on the clock and the
/// machine's time zone, so nothing is claimed of it.
#[verifier::external_body]
fn local_now_string() -> String {
    chrono::Local::now().format("%Y-%m-%d %H:%M:%S").to_string()
}

impl FollowerEngine {
    /// The keys already announced.
    pub closed spec fn known_ids(&self) -> Set<Seq<char>> {
        self.known@
    }

    /// The real queue's entries, front to back.
    pub closed spec fn real_entries(&self) -> Seq<QueueEntry> {
        self.real_queue@
    }

    /// The test queue's identities, front to back.
    pub closed spec fn test_entries(&self) -> Seq<Identity> {
        self.test_queue@
    }

    /// A fresh engine: nothing announced, both queues empty. State lives
    /// only in memory: after a restart the first poll treats every current
    /// follower as new.
    pub fn new() -> (r: Self)
        ensures
            r.known_ids() == Set::<Seq<char>>::empty(),
            r.real_entries() == Seq::<QueueEntry>::empty(),
            r.test_entries() == Seq::<Identity>::empty(),
    {
        FollowerEngine {
            known: KnownFollowerSet::new(),
            real_queue: EventQueue::new(),
            test_queue: TestQueue::new(),
        }
    }

    /// Serves one widget poll at wall-clock `now` (epoch milliseconds),
    /// given the upstream poll result — `None` when the fetch failed or no
    /// session was available; either way the request is served from the
    /// queues rather than failing.
    ///
    /// A successful poll result is reconciled into the known-follower set —
    /// an empty one drops every key, so a later re-follow counts as new —
    /// and its newly seen identities are enqueued, stamped with `now`; then
    /// both queues are pruned of expired entries; finally the snapshot
    /// merges the test queue, the real queue and the poll result, in that
    /// order, keeping the first occurrence of each key.
    pub fn get_snapshot(&mut self, poll: Option<Vec<Identity>>, now: u64) -> (r: Vec<Identity>)
        ensures
            final(self).known_ids() == known_after_poll(old(self).known_ids(), poll),
            final(self).real_entries() == real_after_poll(
                old(self).real_entries(),
                old(self).known_ids(),
                poll,
                now,
            ),
            final(self).test_entries() == evict_test_spec(old(self).test_entries(), now),
            r@ == first_occurrences(
                final(self).test_entries() + idents_of(final(self).real_entries()) + poll_views(
                    poll,
                ),
                Set::<Seq<char>>::empty(),
            ),
    {
        let ghost known0 = self.known@;
        let ghost real0 = self.real_queue@;
        let ghost p = poll_views(poll);
        let polled = poll.is_some();
        let poll_list: Vec<Identity> = match poll {
            Some(v) => v,
            None => Vec::new(),
        };
        proof {
            assert(poll_list@ =~= p);
        }
        if polled {
            let newly = self.known.reconcile(&poll_list);
            let ghost test0 = self.test_queue@;
            let mut i: usize = 0;
            while i < newly.len()
                invariant
                    0 <= i <= newly@.len(),
                    self.known@ == key_set(poll_list@),
                    self.test_queue@ == test0,
                    self.real_queue@ == real0 + stamped(newly@.take(i as int), now),
                decreases newly@.len() - i,
            {
                let ghost q0 = self.real_queue@;
                self.real_queue.enqueue(newly[i].clone(), now);
                proof {
                    assert(stamped(newly@.take(i as int + 1), now) =~= stamped(
                        newly@.take(i as int),
                        now,
                    ).push((QueueEntry { identity: newly@[i as int], enqueued_at: now })));
                    assert(self.real_queue@ =~= real0 + stamped(newly@.take(i as int + 1), now));
                }
                i += 1;
            }
            proof {
                assert(newly@.take(newly@.len() as int) =~= newly@);
            }
        }
        self.real_queue.evict_expired(now);
        self.test_queue.evict_expired(now);
        let test_snap = self.test_queue.snapshot();
        let real_snap = self.real_queue.snapshot();
        proof {
            assert(test_snap@ =~= self.test_queue@);
            assert(real_snap@ =~= idents_of(self.real_queue@));
        }
        combine(&test_snap, &real_snap, &poll_list)
    }

    /// Injects one synthetic test event at wall-clock `now_millis` (epoch
    /// milliseconds): fabricates a unique identity whose key is
    /// `test_<now_millis>_<random token>`, appends it to the test queue,
    /// and returns it. No deduplication against the known-follower set
    /// takes place — synthetic identities are unique by construction. Only
    /// `followed_since` is left open: it renders the outside wall clock.
    pub fn inject_test_event(&mut self, now_millis: u64) -> (r: Identity)
        ensures
            final(self).test_entries() == old(self).test_entries().push(r),
            final(self).real_entries() == old(self).real_entries(),
            final(self).known_ids() == old(self).known_ids(),
            test_token_millis(r.id_hash@) == Some(now_millis as int),
            exists|token: Seq<char>|
                token.len() == 36 && r.id_hash@ == crate::token::test_id_of(
                    now_millis as int,
                    token,
                ),
            r.display_name@ == "Test User"@,
            r.avatar_url is None,
    {
        let token = fresh_token();
        let id_hash = make_test_id(now_millis, token.as_str());
        proof {
            lemma_test_id_parses(now_millis as int, token@);
        }
        let identity = Identity {
            id_hash,
            display_name: String::from_str("Test User"),
            avatar_url: None,
            followed_since: local_now_string(),
        };
        let out = identity.clone();
        proof {
            assert(token@.len() == 36 && out.id_hash@ == crate::token::test_id_of(
                now_millis as int,
                token@,
            ));
        }
        self.test_queue.enqueue(identity);
        out
    }
}

} // verus!
