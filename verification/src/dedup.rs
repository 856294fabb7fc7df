//! Deduplication by identity key, shared by the reconciliation step and the
//! snapshot combiner.

use vstd::prelude::*;

use crate::identity::Identity;

verus! {

/// Whether some identity in `s` carries the key `k`.
pub open spec fn contains_key(s: Seq<Identity>, k: Seq<char>) -> bool {
    exists|i: int| 0 <= i < s.len() && s[i].id_hash@ == k
}

/// The set of identity keys occurring in `s`.
pub open spec fn key_set(s: Seq<Identity>) -> Set<Seq<char>> {
    Set::new(|k: Seq<char>| contains_key(s, k))
}

/// Walks `s` front to back and keeps each identity whose key is neither in
/// `seen` nor carried by an earlier element; later occurrences of a key are
/// dropped. This is both what reconciliation reports as newly seen (with the
/// known-follower set as the initial seen-set) and what the snapshot combiner
/// emits (with an empty initial seen-set).
pub open spec fn first_occurrences(s: Seq<Identity>, seen: Set<Seq<char>>) -> Seq<Identity>
    decreases s.len(),
{
    if s.len() == 0 {
        Seq::<Identity>::empty()
    } else if seen.contains(s[0].id_hash@) {
        first_occurrences(s.drop_first(), seen)
    } else {
        seq![s[0]] + first_occurrences(s.drop_first(), seen.insert(s[0].id_hash@))
    }
}

proof fn lemma_contains_key_unfold(s: Seq<Identity>, k: Seq<char>)
    requires
        s.len() > 0,
    ensures
        contains_key(s, k) <==> (s[0].id_hash@ == k || contains_key(s.drop_first(), k)),
{
    let rest = s.drop_first();
    if contains_key(s, k) {
        let i = choose|i: int| 0 <= i < s.len() && s[i].id_hash@ == k;
        if i > 0 {
            assert(rest[i - 1].id_hash@ == k);
        }
    }
    if contains_key(rest, k) {
        let i = choose|i: int| 0 <= i < rest.len() && rest[i].id_hash@ == k;
        assert(s[i + 1].id_hash@ == k);
    }
}

/// Whether some string in `v` reads `k`.
pub open spec fn strings_contain(v: Seq<String>, k: Seq<char>) -> bool {
    exists|i: int| 0 <= i < v.len() && v[i]@ == k
}

/// The set of keys held by a vector of strings.
pub open spec fn string_key_set(v: Seq<String>) -> Set<Seq<char>> {
    Set::new(|k: Seq<char>| strings_contain(v, k))
}

/// Linear scan for a key among stored strings.
pub fn vec_contains_string(v: &Vec<String>, k: &String) -> (r: bool)
    ensures
        r == strings_contain(v@, k@),
{
    let mut i: usize = 0;
    while i < v.len()
        invariant
            0 <= i <= v@.len(),
            forall|j: int| 0 <= j < i ==> v@[j]@ != k@,
        decreases v@.len() - i,
    {
        if v[i] == *k {
            return true;
        }
        i += 1;
    }
    false
}

/// Appending one string extends the contained keys by exactly that string's
/// characters.
pub proof fn lemma_strings_contain_push(v: Seq<String>, x: String, k: Seq<char>)
    ensures
        strings_contain(v.push(x), k) <==> (strings_contain(v, k) || x@ == k),
{
    if strings_contain(v, k) {
        let i = choose|i: int| 0 <= i < v.len() && v[i]@ == k;
        assert(v.push(x)[i]@ == k);
    }
    if x@ == k {
        assert(v.push(x)[v.len() as int]@ == k);
    }
    if strings_contain(v.push(x), k) {
        let i = choose|i: int| 0 <= i < v.push(x).len() && v.push(x)[i]@ == k;
        if i < v.len() {
            assert(v[i]@ == k);
        }
    }
}

/// A concatenation carries a key exactly when one of its parts does.
pub proof fn lemma_contains_key_concat(a: Seq<Identity>, b: Seq<Identity>, k: Seq<char>)
    ensures
        contains_key(a + b, k) <==> (contains_key(a, k) || contains_key(b, k)),
{
    if contains_key(a, k) {
        let i = choose|i: int| 0 <= i < a.len() && a[i].id_hash@ == k;
        assert((a + b)[i].id_hash@ == k);
    }
    if contains_key(b, k) {
        let i = choose|i: int| 0 <= i < b.len() && b[i].id_hash@ == k;
        assert((a + b)[a.len() + i].id_hash@ == k);
    }
    if contains_key(a + b, k) {
        let i = choose|i: int| 0 <= i < (a + b).len() && (a + b)[i].id_hash@ == k;
        if i < a.len() {
            assert(a[i].id_hash@ == k);
        } else {
            assert(b[i - a.len()].id_hash@ == k);
        }
    }
}

/// Appending one identity extends the carried keys by exactly its key.
pub proof fn lemma_contains_key_push(s: Seq<Identity>, x: Identity, k: Seq<char>)
    ensures
        contains_key(s.push(x), k) <==> (contains_key(s, k) || x.id_hash@ == k),
{
    if contains_key(s, k) {
        let i = choose|i: int| 0 <= i < s.len() && s[i].id_hash@ == k;
        assert(s.push(x)[i].id_hash@ == k);
    }
    if x.id_hash@ == k {
        assert(s.push(x)[s.len() as int].id_hash@ == k);
    }
    if contains_key(s.push(x), k) {
        let i = choose|i: int| 0 <= i < s.push(x).len() && s.push(x)[i].id_hash@ == k;
        if i < s.len() {
            assert(s[i].id_hash@ == k);
        }
    }
}

/// The keys of the kept elements are exactly the keys of `s` outside `seen`.
pub proof fn lemma_first_occurrences_keys(s: Seq<Identity>, seen: Set<Seq<char>>)
    ensures
        key_set(first_occurrences(s, seen)) == key_set(s).difference(seen),
    decreases s.len(),
{
    let out = first_occurrences(s, seen);
    if s.len() == 0 {
        assert(key_set(out) =~= key_set(s).difference(seen));
    } else {
        let rest = s.drop_first();
        if seen.contains(s[0].id_hash@) {
            lemma_first_occurrences_keys(rest, seen);
            assert(out == first_occurrences(rest, seen));
            assert forall|k: Seq<char>|
                key_set(out).contains(k) == key_set(s).difference(seen).contains(k) by {
                lemma_contains_key_unfold(s, k);
                assert(key_set(out).contains(k) == key_set(rest).difference(seen).contains(k));
                if k == s[0].id_hash@ {
                    assert(seen.contains(k));
                }
            }
            assert(key_set(out) =~= key_set(s).difference(seen));
        } else {
            let seen1 = seen.insert(s[0].id_hash@);
            lemma_first_occurrences_keys(rest, seen1);
            let tail = first_occurrences(rest, seen1);
            assert(out == seq![s[0]] + tail);
            assert forall|k: Seq<char>|
                key_set(out).contains(k) == key_set(s).difference(seen).contains(k) by {
                lemma_contains_key_unfold(s, k);
                lemma_contains_key_unfold(out, k);
                assert(out[0] == s[0]);
                assert(out.drop_first() =~= tail);
                assert(key_set(tail).contains(k) == key_set(rest).difference(seen1).contains(k));
            }
            assert(key_set(out) =~= key_set(s).difference(seen));
        }
    }
}

/// Appending one identity at the back keeps it exactly when its key is new
/// with respect to both the initial seen-set and the elements before it.
pub proof fn lemma_first_occurrences_push(s: Seq<Identity>, seen: Set<Seq<char>>, x: Identity)
    ensures
        first_occurrences(s.push(x), seen) == (if seen.contains(x.id_hash@) || contains_key(
            s,
            x.id_hash@,
        ) {
            first_occurrences(s, seen)
        } else {
            first_occurrences(s, seen).push(x)
        }),
    decreases s.len(),
{
    let kept = !(seen.contains(x.id_hash@) || contains_key(s, x.id_hash@));
    if s.len() == 0 {
        assert(s.push(x)[0] == x);
        assert(s.push(x).drop_first() =~= Seq::<Identity>::empty());
        assert(first_occurrences(Seq::<Identity>::empty(), seen) == Seq::<Identity>::empty());
        assert(first_occurrences(Seq::<Identity>::empty(), seen.insert(x.id_hash@))
            == Seq::<Identity>::empty());
        assert(first_occurrences(s, seen) == Seq::<Identity>::empty());
        assert(!contains_key(s, x.id_hash@));
        if kept {
            assert(first_occurrences(s.push(x), seen) == seq![x] + first_occurrences(
                s.push(x).drop_first(),
                seen.insert(x.id_hash@),
            ));
            assert(first_occurrences(s.push(x), seen) =~= first_occurrences(s, seen).push(x));
        } else {
            assert(seen.contains(x.id_hash@));
            assert(first_occurrences(s.push(x), seen) == first_occurrences(
                s.push(x).drop_first(),
                seen,
            ));
            assert(first_occurrences(s.push(x), seen) =~= first_occurrences(s, seen));
        }
    } else {
        let rest = s.drop_first();
        lemma_contains_key_unfold(s, x.id_hash@);
        assert(s.push(x)[0] == s[0]);
        assert(s.push(x).drop_first() =~= rest.push(x));
        if seen.contains(s[0].id_hash@) {
            lemma_first_occurrences_push(rest, seen, x);
        } else {
            let seen1 = seen.insert(s[0].id_hash@);
            lemma_first_occurrences_push(rest, seen1, x);
            // x survives against seen1 exactly when it survives against seen,
            // unless it shares the key of s[0].
            if !(seen1.contains(x.id_hash@) || contains_key(rest, x.id_hash@)) {
                assert(first_occurrences(s.push(x), seen) =~= first_occurrences(s, seen).push(x));
            }
        }
    }
}

/// Processing a concatenation is processing the first part and then the
/// second against the seen-set grown by the first part's keys.
pub proof fn lemma_first_occurrences_concat(a: Seq<Identity>, b: Seq<Identity>, seen: Set<Seq<char>>)
    ensures
        first_occurrences(a + b, seen) == first_occurrences(a, seen) + first_occurrences(
            b,
            seen.union(key_set(a)),
        ),
    decreases a.len(),
{
    if a.len() == 0 {
        assert(a + b =~= b);
        assert(seen.union(key_set(a)) =~= seen);
        assert(first_occurrences(a, seen) + first_occurrences(b, seen) =~= first_occurrences(
            b,
            seen,
        ));
    } else {
        let rest = a.drop_first();
        assert((a + b)[0] == a[0]);
        assert((a + b).drop_first() =~= rest + b);
        assert forall|k: Seq<char>| true implies #[trigger] key_set(a).contains(k) == (a[0].id_hash@
            == k || key_set(rest).contains(k)) by {
            lemma_contains_key_unfold(a, k);
        }
        if seen.contains(a[0].id_hash@) {
            lemma_first_occurrences_concat(rest, b, seen);
            assert(seen.union(key_set(rest)) =~= seen.union(key_set(a)));
        } else {
            let seen1 = seen.insert(a[0].id_hash@);
            lemma_first_occurrences_concat(rest, b, seen1);
            assert(seen1.union(key_set(rest)) =~= seen.union(key_set(a)));
            assert(seq![a[0]] + (first_occurrences(rest, seen1) + first_occurrences(
                b,
                seen1.union(key_set(rest)),
            )) =~= (seq![a[0]] + first_occurrences(rest, seen1)) + first_occurrences(
                b,
                seen1.union(key_set(rest)),
            ));
        }
    }
}

/// The combiner and the reconciliation step never keep two identities with
/// the same key, and never one whose key was already in the seen-set.
pub proof fn lemma_first_occurrences_distinct(s: Seq<Identity>, seen: Set<Seq<char>>)
    ensures
        forall|i: int, j: int|
            0 <= i < j < first_occurrences(s, seen).len() ==> first_occurrences(s, seen)[i].id_hash@
                != first_occurrences(s, seen)[j].id_hash@,
        forall|i: int|
            0 <= i < first_occurrences(s, seen).len() ==> !seen.contains(
                first_occurrences(s, seen)[i].id_hash@,
            ),
    decreases s.len(),
{
    let out = first_occurrences(s, seen);
    if s.len() == 0 {
    } else {
        let rest = s.drop_first();
        if seen.contains(s[0].id_hash@) {
            lemma_first_occurrences_distinct(rest, seen);
        } else {
            let seen1 = seen.insert(s[0].id_hash@);
            lemma_first_occurrences_distinct(rest, seen1);
            let tail = first_occurrences(rest, seen1);
            assert forall|i: int, j: int| 0 <= i < j < out.len() implies out[i].id_hash@
                != out[j].id_hash@ by {
                assert(out[0] == s[0]);
                if i > 0 {
                    assert(out[i] == tail[i - 1]);
                }
                assert(out[j] == tail[j - 1]);
                if i == 0 {
                    assert(!seen1.contains(tail[j - 1].id_hash@));
                }
            }
            assert forall|i: int| 0 <= i < out.len() implies !seen.contains(out[i].id_hash@) by {
                if i > 0 {
                    assert(out[i] == tail[i - 1]);
                    assert(!seen1.contains(tail[i - 1].id_hash@));
                }
            }
        }
    }
}

/// Nothing is reported when every key of `s` is already in the seen-set.
pub proof fn lemma_all_seen_yields_nothing(s: Seq<Identity>, seen: Set<Seq<char>>)
    requires
        forall|i: int| 0 <= i < s.len() ==> seen.contains(#[trigger] s[i].id_hash@),
    ensures
        first_occurrences(s, seen) == Seq::<Identity>::empty(),
    decreases s.len(),
{
    if s.len() > 0 {
        let rest = s.drop_first();
        assert forall|i: int| 0 <= i < rest.len() implies seen.contains(
            #[trigger] rest[i].id_hash@,
        ) by {
            assert(rest[i] == s[i + 1]);
        }
        lemma_all_seen_yields_nothing(rest, seen);
    }
}

/// Re-polling with an unchanged result after a reconciliation reports no
/// identity as newly seen: every key of `p` is by then a known key.
pub proof fn lemma_repoll_yields_nothing(p: Seq<Identity>)
    ensures
        first_occurrences(p, key_set(p)) == Seq::<Identity>::empty(),
{
    assert forall|i: int| 0 <= i < p.len() implies key_set(p).contains(
        #[trigger] p[i].id_hash@,
    ) by {
        assert(p[i].id_hash@ == p[i].id_hash@);
    }
    lemma_all_seen_yields_nothing(p, key_set(p));
}

/// A follower present, then absent, then present again over three successive
/// polls is reported as newly seen on the first and on the third poll, and
/// not on the second, provided its key was unknown before the first poll.
pub proof fn lemma_refollow_reported_again(
    p1: Seq<Identity>,
    p2: Seq<Identity>,
    p3: Seq<Identity>,
    known0: Set<Seq<char>>,
    k: Seq<char>,
)
    requires
        !known0.contains(k),
        contains_key(p1, k),
        !contains_key(p2, k),
        contains_key(p3, k),
    ensures
        contains_key(first_occurrences(p1, known0), k),
        !contains_key(first_occurrences(p2, key_set(p1)), k),
        contains_key(first_occurrences(p3, key_set(p2)), k),
{
    lemma_first_occurrences_keys(p1, known0);
    assert(key_set(first_occurrences(p1, known0)).contains(k));
    lemma_first_occurrences_keys(p2, key_set(p1));
    assert(!key_set(p2).contains(k));
    assert(!key_set(first_occurrences(p2, key_set(p1))).contains(k));
    lemma_first_occurrences_keys(p3, key_set(p2));
    assert(key_set(p3).contains(k));
    assert(key_set(first_occurrences(p3, key_set(p2))).contains(k));
}

} // verus!
