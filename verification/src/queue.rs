//! The time-bounded FIFO queues of pending notification events.

use vstd::prelude::*;

use crate::identity::Identity;
use crate::token::{parse_test_millis, test_token_millis};

verus! {

/// How long an entry stays eligible for display, in milliseconds.
pub const EXPIRY_WINDOW_MILLIS: u64 = 30000;

/// One pending notification in the real-follower queue, stamped with the
/// wall-clock time at which the follower was detected.
pub struct QueueEntry {
    pub identity: Identity,
    pub enqueued_at: u64,
}

/// An entry is expired once its age at `now` exceeds the expiry window.
pub open spec fn real_expired(entry: QueueEntry, now: u64) -> bool {
    now > entry.enqueued_at + EXPIRY_WINDOW_MILLIS
}

/// Front-only eviction: drop entries from the front while the front entry is
/// expired, and stop at the first survivor. Nothing behind the first
/// survivor is touched.
pub open spec fn evict_real_spec(s: Seq<QueueEntry>, now: u64) -> Seq<QueueEntry>
    decreases s.len(),
{
    if s.len() > 0 && real_expired(s[0], now) {
        evict_real_spec(s.drop_first(), now)
    } else {
        s
    }
}

/// The FIFO queue of real follower notifications, oldest at the front.
pub struct EventQueue {
    entries: Vec<QueueEntry>,
}

impl View for EventQueue {
    type V = Seq<QueueEntry>;

    closed spec fn view(&self) -> Seq<QueueEntry> {
        self.entries@
    }
}

impl EventQueue {
    /// An empty queue.
    pub fn new() -> (r: Self)
        ensures
            r@ == Seq::<QueueEntry>::empty(),
    {
        EventQueue { entries: Vec::new() }
    }

    /// Appends one identity at the back, stamped with `now`.
    pub fn enqueue(&mut self, identity: Identity, now: u64)
        ensures
            final(self)@ == old(self)@.push((QueueEntry { identity, enqueued_at: now })),
    {
        self.entries.push(QueueEntry { identity, enqueued_at: now });
    }

    /// Removes expired entries from the front, stopping at the first entry
    /// young enough to stay. Entries are removed only from the front, never
    /// from the middle or the back.
    pub fn evict_expired(&mut self, now: u64)
        ensures
            final(self)@ == evict_real_spec(old(self)@, now),
    {
        while self.entries.len() > 0 && is_real_expired(&self.entries[0], now)
            invariant
                evict_real_spec(self.entries@, now) == evict_real_spec(old(self)@, now),
            decreases self.entries@.len(),
        {
            let ghost before = self.entries@;
            self.entries.remove(0);
            proof {
                assert(self.entries@ =~= before.drop_first());
            }
        }
    }

    /// The identities currently queued, front to back; reads only.
    pub fn snapshot(&self) -> (r: Vec<Identity>)
        ensures
            r@.len() == self@.len(),
            forall|i: int| 0 <= i < r@.len() ==> r@[i] == self@[i].identity,
    {
        let mut r: Vec<Identity> = Vec::new();
        let mut i: usize = 0;
        while i < self.entries.len()
            invariant
                0 <= i <= self.entries@.len(),
                self@ == self.entries@,
                r@.len() == i,
                forall|j: int| 0 <= j < i ==> r@[j] == self.entries@[j].identity,
            decreases self.entries@.len() - i,
        {
            r.push(self.entries[i].identity.clone());
            i += 1;
        }
        r
    }
}

/// Whether a real-queue entry is past the expiry window at `now`, computed
/// without overflowing.
fn is_real_expired(entry: &QueueEntry, now: u64) -> (r: bool)
    ensures
        r == real_expired(*entry, now),
{
    now > EXPIRY_WINDOW_MILLIS && entry.enqueued_at < now - EXPIRY_WINDOW_MILLIS
}

/// A test-queue identity is expired at `now` when its embedded timestamp is
/// older than the expiry window — or when it carries no parsable timestamp
/// at all: a malformed entry is treated as already expired, so it can never
/// sit at the front forever and block eviction of the entries behind it.
pub open spec fn test_expired(identity: Identity, now: u64) -> bool {
    match test_token_millis(identity.id_hash@) {
        Some(t) => now > t + EXPIRY_WINDOW_MILLIS,
        None => true,
    }
}

/// Front-only eviction of the test queue, against the embedded timestamps.
pub open spec fn evict_test_spec(s: Seq<Identity>, now: u64) -> Seq<Identity>
    decreases s.len(),
{
    if s.len() > 0 && test_expired(s[0], now) {
        evict_test_spec(s.drop_first(), now)
    } else {
        s
    }
}

/// The FIFO queue of operator-injected test notifications. There is no
/// stored timestamp: each identity carries its effective enqueue time
/// embedded in its synthetic key.
pub struct TestQueue {
    entries: Vec<Identity>,
}

impl View for TestQueue {
    type V = Seq<Identity>;

    closed spec fn view(&self) -> Seq<Identity> {
        self.entries@
    }
}

impl TestQueue {
    /// An empty queue.
    pub fn new() -> (r: Self)
        ensures
            r@ == Seq::<Identity>::empty(),
    {
        TestQueue { entries: Vec::new() }
    }

    /// Appends one identity at the back.
    pub fn enqueue(&mut self, identity: Identity)
        ensures
            final(self)@ == old(self)@.push(identity),
    {
        self.entries.push(identity);
    }

    /// Removes entries whose embedded timestamp is expired (or unparsable)
    /// from the front, stopping at the first entry that stays.
    pub fn evict_expired(&mut self, now: u64)
        ensures
            final(self)@ == evict_test_spec(old(self)@, now),
    {
        while self.entries.len() > 0 && is_test_expired(&self.entries[0], now)
            invariant
                evict_test_spec(self.entries@, now) == evict_test_spec(old(self)@, now),
            decreases self.entries@.len(),
        {
            let ghost before = self.entries@;
            self.entries.remove(0);
            proof {
                assert(self.entries@ =~= before.drop_first());
            }
        }
    }

    /// The identities currently queued, front to back; reads only.
    pub fn snapshot(&self) -> (r: Vec<Identity>)
        ensures
            r@.len() == self@.len(),
            forall|i: int| 0 <= i < r@.len() ==> r@[i] == self@[i],
    {
        let mut r: Vec<Identity> = Vec::new();
        let mut i: usize = 0;
        while i < self.entries.len()
            invariant
                0 <= i <= self.entries@.len(),
                self@ == self.entries@,
                r@.len() == i,
                forall|j: int| 0 <= j < i ==> r@[j] == self.entries@[j],
            decreases self.entries@.len() - i,
        {
            r.push(self.entries[i].clone());
            i += 1;
        }
        r
    }
}

/// Whether a test-queue identity is expired at `now`.
fn is_test_expired(identity: &Identity, now: u64) -> (r: bool)
    ensures
        r == test_expired(*identity, now),
{
    match parse_test_millis(identity.id_hash.as_str()) {
        Some(t) => now > EXPIRY_WINDOW_MILLIS && t < now - EXPIRY_WINDOW_MILLIS,
        None => true,
    }
}

/// In a queue whose stamps are nondecreasing from front to back — as they
/// are when entries are enqueued in wall-clock order — front-only eviction
/// leaves no expired entry anywhere, and what stays is exactly the suffix of
/// entries young enough to stay.
pub proof fn lemma_evict_real_complete(s: Seq<QueueEntry>, now: u64)
    requires
        forall|i: int, j: int| 0 <= i <= j < s.len() ==> s[i].enqueued_at <= s[j].enqueued_at,
    ensures
        forall|i: int|
            0 <= i < evict_real_spec(s, now).len() ==> !real_expired(
                #[trigger] evict_real_spec(s, now)[i],
                now,
            ),
        evict_real_spec(s, now).len() <= s.len(),
        evict_real_spec(s, now) == s.skip(s.len() - evict_real_spec(s, now).len()),
    decreases s.len(),
{
    if s.len() > 0 && real_expired(s[0], now) {
        let rest = s.drop_first();
        assert forall|i: int, j: int| 0 <= i <= j < rest.len() implies rest[i].enqueued_at
            <= rest[j].enqueued_at by {
            assert(rest[i] == s[i + 1]);
            assert(rest[j] == s[j + 1]);
        }
        lemma_evict_real_complete(rest, now);
        let m = rest.len() - evict_real_spec(rest, now).len();
        assert forall|x: int| 0 <= x < evict_real_spec(rest, now).len() implies rest.skip(m)[x]
            == s.skip(m + 1)[x] by {
            assert(rest.skip(m)[x] == rest[m + x]);
            assert(rest[m + x] == s[m + x + 1]);
        }
        assert(rest.skip(m) =~= s.skip(m + 1));
    } else {
        if s.len() > 0 {
            assert forall|i: int| 0 <= i < s.len() implies !real_expired(#[trigger] s[i], now) by {
                assert(s[0].enqueued_at <= s[i].enqueued_at);
            }
        }
        assert(s.skip(0) =~= s);
    }
}

} // verus!
