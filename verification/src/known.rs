//! The set of follower keys already announced, reconciled against each fresh
//! poll result.

use vstd::prelude::*;

use crate::dedup::{
    contains_key, first_occurrences, key_set, lemma_strings_contain_push, strings_contain,
    vec_contains_string,
};
use crate::identity::Identity;

verus! {

/// The identity keys the engine has already accounted for. Reconciling it
/// against a poll result drops keys no longer reported upstream (so a later
/// re-follow counts as new again) and reports the keys seen for the first
/// time.
pub struct KnownFollowerSet {
    ids: Vec<String>,
}

impl View for KnownFollowerSet {
    type V = Set<Seq<char>>;

    closed spec fn view(&self) -> Set<Seq<char>> {
        Set::new(|k: Seq<char>| exists|i: int| 0 <= i < self.ids@.len() && self.ids@[i]@ == k)
    }
}

impl KnownFollowerSet {
    /// An empty set: nothing has been announced yet.
    pub fn new() -> (r: Self)
        ensures
            r@ == Set::<Seq<char>>::empty(),
    {
        let r = KnownFollowerSet { ids: Vec::new() };
        proof {
            assert(r@ =~= Set::<Seq<char>>::empty());
        }
        r
    }

    /// Whether `key` has already been announced.
    pub fn contains(&self, key: &String) -> (r: bool)
        ensures
            r == self@.contains(key@),
    {
        vec_contains_string(&self.ids, key)
    }

    /// Updates the set against a fresh poll result and reports the newly
    /// seen identities.
    ///
    /// Afterwards the set holds exactly the keys present in `current`; keys
    /// of followers no longer reported upstream are dropped. The returned
    /// identities are the elements of `current` whose key was not yet known,
    /// first occurrence each, in poll order.
    pub fn reconcile(&mut self, current: &Vec<Identity>) -> (newly: Vec<Identity>)
        ensures
            final(self)@ == key_set(current@),
            newly@ == first_occurrences(current@, old(self)@),
    {
        let ghost known0: Set<Seq<char>> = self@;
        let mut newly: Vec<Identity> = Vec::new();
        let mut new_keys: Vec<String> = Vec::new();
        let mut j: usize = 0;
        while j < current.len()
            invariant
                0 <= j <= current@.len(),
                self@ == known0,
                newly@ == first_occurrences(current@.take(j as int), known0),
                forall|k: Seq<char>|
                    #[trigger] strings_contain(new_keys@, k) == (contains_key(
                        current@.take(j as int),
                        k,
                    ) && !known0.contains(k)),
            decreases current@.len() - j,
        {
            let ghost prefix = current@.take(j as int);
            let candidate = &current[j];
            proof {
                assert(current@.take(j as int + 1) =~= prefix.push(current@[j as int]));
                crate::dedup::lemma_first_occurrences_push(prefix, known0, current@[j as int]);
            }
            let in_known = self.contains(&candidate.id_hash);
            let in_new = vec_contains_string(&new_keys, &candidate.id_hash);
            if !in_known && !in_new {
                let ghost prev_keys = new_keys@;
                newly.push(candidate.clone());
                new_keys.push(candidate.id_hash.clone());
                proof {
                    assert forall|k: Seq<char>|
                        #[trigger] strings_contain(new_keys@, k) == (contains_key(
                            current@.take(j as int + 1),
                            k,
                        ) && !known0.contains(k)) by {
                        crate::dedup::lemma_contains_key_push(prefix, current@[j as int], k);
                        lemma_strings_contain_push(prev_keys, new_keys@.last(), k);
                        assert(new_keys@ =~= prev_keys.push(new_keys@.last()));
                    }
                }
            } else {
                proof {
                    assert(known0.contains(candidate.id_hash@) || strings_contain(
                        new_keys@,
                        candidate.id_hash@,
                    ));
                    assert forall|k: Seq<char>|
                        #[trigger] strings_contain(new_keys@, k) == (contains_key(
                            current@.take(j as int + 1),
                            k,
                        ) && !known0.contains(k)) by {
                        crate::dedup::lemma_contains_key_push(prefix, current@[j as int], k);
                    }
                }
            }
            j += 1;
        }
        proof {
            assert(current@.take(current@.len() as int) =~= current@);
        }
        // Rebuild the stored keys from the poll result itself: the set must
        // afterwards hold exactly the keys reported upstream.
        let mut rebuilt: Vec<String> = Vec::new();
        let mut i: usize = 0;
        while i < current.len()
            invariant
                0 <= i <= current@.len(),
                rebuilt@.len() == i,
                forall|j2: int| 0 <= j2 < i ==> rebuilt@[j2]@ == current@[j2].id_hash@,
            decreases current@.len() - i,
        {
            rebuilt.push(current[i].id_hash.clone());
            i += 1;
        }
        self.ids = rebuilt;
        proof {
            assert forall|k: Seq<char>| self@.contains(k) == key_set(current@).contains(k) by {
                if self@.contains(k) {
                    let w = choose|w: int| 0 <= w < self.ids@.len() && self.ids@[w]@ == k;
                    assert(current@[w].id_hash@ == k);
                }
                if contains_key(current@, k) {
                    let w = choose|w: int| 0 <= w < current@.len() && current@[w].id_hash@ == k;
                    assert(self.ids@[w]@ == k);
                }
            }
            assert(self@ =~= key_set(current@));
        }
        newly
    }
}

} // verus!
