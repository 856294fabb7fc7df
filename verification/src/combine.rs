//! The snapshot combiner: merges the test queue, the real queue and the raw
//! poll result into one deduplicated, order-preserving list for the widget.

use vstd::prelude::*;

use crate::dedup::{
    contains_key, first_occurrences, key_set, lemma_contains_key_concat, lemma_contains_key_push,
    lemma_first_occurrences_concat, lemma_first_occurrences_distinct, lemma_first_occurrences_push,
    lemma_strings_contain_push, string_key_set, strings_contain, vec_contains_string,
};
use crate::identity::Identity;

verus! {

/// Appends the elements of `src` whose key is not in `seen` yet, in order,
/// first occurrence each, and marks their keys seen.
fn append_unseen(out: &mut Vec<Identity>, seen: &mut Vec<String>, src: &Vec<Identity>)
    ensures
        final(out)@ == old(out)@ + first_occurrences(src@, string_key_set(old(seen)@)),
        forall|k: Seq<char>|
            #[trigger] strings_contain(final(seen)@, k) == (strings_contain(old(seen)@, k)
                || contains_key(src@, k)),
{
    let ghost seen0 = seen@;
    let ghost out0 = out@;
    let ghost k0 = string_key_set(seen0);
    let mut i: usize = 0;
    while i < src.len()
        invariant
            0 <= i <= src@.len(),
            k0 == string_key_set(seen0),
            out@ == out0 + first_occurrences(src@.take(i as int), k0),
            forall|k: Seq<char>|
                #[trigger] strings_contain(seen@, k) == (strings_contain(seen0, k) || contains_key(
                    src@.take(i as int),
                    k,
                )),
        decreases src@.len() - i,
    {
        let ghost prefix = src@.take(i as int);
        let candidate = &src[i];
        proof {
            assert(src@.take(i as int + 1) =~= prefix.push(src@[i as int]));
            lemma_first_occurrences_push(prefix, k0, src@[i as int]);
            assert(k0.contains(src@[i as int].id_hash@) == strings_contain(
                seen0,
                src@[i as int].id_hash@,
            ));
        }
        let already = vec_contains_string(seen, &candidate.id_hash);
        if !already {
            let ghost prev_seen = seen@;
            out.push(candidate.clone());
            seen.push(candidate.id_hash.clone());
            proof {
                assert(out@ =~= (out0 + first_occurrences(prefix, k0)).push(src@[i as int]));
                assert(out@ =~= out0 + first_occurrences(prefix, k0).push(src@[i as int]));
                assert forall|k: Seq<char>|
                    #[trigger] strings_contain(seen@, k) == (strings_contain(seen0, k)
                        || contains_key(src@.take(i as int + 1), k)) by {
                    lemma_contains_key_push(prefix, src@[i as int], k);
                    lemma_strings_contain_push(prev_seen, seen@.last(), k);
                    assert(seen@ =~= prev_seen.push(seen@.last()));
                }
            }
        } else {
            proof {
                assert forall|k: Seq<char>|
                    #[trigger] strings_contain(seen@, k) == (strings_contain(seen0, k)
                        || contains_key(src@.take(i as int + 1), k)) by {
                    lemma_contains_key_push(prefix, src@[i as int], k);
                }
            }
        }
        i += 1;
    }
    proof {
        assert(src@.take(src@.len() as int) =~= src@);
    }
}

/// Merges the three sources into one list: every test-queue entry in queue
/// order, then every real-queue entry in queue order, then every leftover
/// poll-result entry, keeping of each key only its first occurrence across
/// the whole concatenation.
pub fn combine(
    test_entries: &Vec<Identity>,
    real_entries: &Vec<Identity>,
    poll_entries: &Vec<Identity>,
) -> (r: Vec<Identity>)
    ensures
        r@ == first_occurrences(
            test_entries@ + real_entries@ + poll_entries@,
            Set::<Seq<char>>::empty(),
        ),
{
    let mut out: Vec<Identity> = Vec::new();
    let mut seen: Vec<String> = Vec::new();
    let ghost empty = Set::<Seq<char>>::empty();
    let ghost s0 = seen@;
    proof {
        assert(string_key_set(s0) =~= empty);
    }
    append_unseen(&mut out, &mut seen, test_entries);
    let ghost s1 = seen@;
    append_unseen(&mut out, &mut seen, real_entries);
    let ghost s2 = seen@;
    append_unseen(&mut out, &mut seen, poll_entries);
    proof {
        lemma_first_occurrences_concat(test_entries@, real_entries@, empty);
        lemma_first_occurrences_concat(test_entries@ + real_entries@, poll_entries@, empty);
        assert(string_key_set(s1) =~= empty.union(key_set(test_entries@)));
        assert forall|k: Seq<char>| string_key_set(s2).contains(k) == empty.union(
            key_set(test_entries@ + real_entries@),
        ).contains(k) by {
            lemma_contains_key_concat(test_entries@, real_entries@, k);
        }
        assert(string_key_set(s2) =~= empty.union(key_set(test_entries@ + real_entries@)));
        assert(out@ =~= first_occurrences(
            test_entries@ + real_entries@ + poll_entries@,
            empty,
        ));
    }
    out
}

/// Whatever the three sources hold — however many of them carry the same
/// key, and however often — the merged snapshot never emits two entries
/// with the same key.
pub proof fn lemma_snapshot_keys_distinct(
    test_entries: Seq<Identity>,
    real_entries: Seq<Identity>,
    poll_entries: Seq<Identity>,
)
    ensures
        forall|i: int, j: int|
            0 <= i < j < first_occurrences(
                test_entries + real_entries + poll_entries,
                Set::<Seq<char>>::empty(),
            ).len() ==> first_occurrences(
                test_entries + real_entries + poll_entries,
                Set::<Seq<char>>::empty(),
            )[i].id_hash@ != first_occurrences(
                test_entries + real_entries + poll_entries,
                Set::<Seq<char>>::empty(),
            )[j].id_hash@,
{
    lemma_first_occurrences_distinct(
        test_entries + real_entries + poll_entries,
        Set::<Seq<char>>::empty(),
    );
}

} // verus!
