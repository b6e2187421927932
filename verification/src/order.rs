//! Deterministic ordering of named entries.
//!
//! The container format must be byte-reproducible for the same logical
//! content, whatever order the caller supplies entries in. The chosen and
//! documented policy: entries are keyed by the UTF-8 bytes of their name,
//! duplicate names resolve last-write-wins, and output order is strict
//! lexicographic byte order of the names.
//!
//! This module defines that order, the last-write-wins map reading of an
//! entry sequence, the canonical sorted form of a sequence, and the fact
//! that makes determinism a theorem: a strictly sorted entry sequence is
//! uniquely determined by the map it denotes.

use vstd::prelude::*;

verus! {

/// Strict lexicographic order on byte strings.
pub open spec fn lex_lt(a: Seq<u8>, b: Seq<u8>) -> bool
    decreases a.len(),
{
    if b.len() == 0 {
        false
    } else if a.len() == 0 {
        true
    } else if a[0] < b[0] {
        true
    } else if a[0] > b[0] {
        false
    } else {
        lex_lt(a.drop_first(), b.drop_first())
    }
}

/// No byte string is below itself.
pub proof fn lemma_lex_irrefl(a: Seq<u8>)
    ensures
        !lex_lt(a, a),
    decreases a.len(),
{
    if a.len() > 0 {
        lemma_lex_irrefl(a.drop_first());
    }
}

/// Any two byte strings are ordered or equal.
pub proof fn lemma_lex_connected(a: Seq<u8>, b: Seq<u8>)
    ensures
        lex_lt(a, b) || lex_lt(b, a) || a == b,
    decreases a.len(),
{
    if a.len() == 0 && b.len() == 0 {
        assert(a =~= b);
    } else if a.len() > 0 && b.len() > 0 && a[0] == b[0] {
        lemma_lex_connected(a.drop_first(), b.drop_first());
        if !lex_lt(a, b) && !lex_lt(b, a) {
            assert(a.drop_first() == b.drop_first());
            assert forall|i: int| 0 <= i < a.len() implies a[i] == b[i] by {
                if i > 0 {
                    assert(a.drop_first()[i - 1] == a[i]);
                    assert(b.drop_first()[i - 1] == b[i]);
                }
            }
            assert(a =~= b);
        }
    }
}

/// Lexicographic order is transitive.
pub proof fn lemma_lex_trans(a: Seq<u8>, b: Seq<u8>, c: Seq<u8>)
    requires
        lex_lt(a, b),
        lex_lt(b, c),
    ensures
        lex_lt(a, c),
    decreases a.len(),
{
    if a.len() > 0 && b.len() > 0 && c.len() > 0 {
        if a[0] == b[0] && b[0] == c[0] {
            lemma_lex_trans(a.drop_first(), b.drop_first(), c.drop_first());
        }
    }
}

/// The keys of an entry sequence are pairwise strictly increasing.
pub open spec fn sorted_strict<V>(s: Seq<(Seq<u8>, V)>) -> bool {
    forall|i: int, j: int| 0 <= i < j < s.len() ==> lex_lt(s[i].0, s[j].0)
}

/// Some entry carries this key.
pub open spec fn has_key<V>(s: Seq<(Seq<u8>, V)>, k: Seq<u8>) -> bool {
    exists|i: int| 0 <= i < s.len() && s[i].0 == k
}

/// No two entries carry the same key.
pub open spec fn distinct_keys<V>(s: Seq<(Seq<u8>, V)>) -> bool {
    forall|i: int, j: int| 0 <= i < j < s.len() ==> s[i].0 != s[j].0
}

/// The mapping an entry sequence denotes; a later entry for the same key
/// overwrites an earlier one (last write wins).
pub open spec fn map_of<V>(s: Seq<(Seq<u8>, V)>) -> Map<Seq<u8>, V>
    decreases s.len(),
{
    if s.len() == 0 {
        Map::empty()
    } else {
        map_of(s.drop_last()).insert(s.last().0, s.last().1)
    }
}

/// Strictly sorted keys are pairwise distinct.
pub proof fn lemma_sorted_distinct<V>(s: Seq<(Seq<u8>, V)>)
    requires
        sorted_strict(s),
    ensures
        distinct_keys(s),
{
    assert forall|i: int, j: int| 0 <= i < j < s.len() implies s[i].0 != s[j].0 by {
        lemma_lex_irrefl(s[i].0);
    }
}

/// The domain of the denoted map is exactly the keys that occur.
pub proof fn lemma_map_of_dom<V>(s: Seq<(Seq<u8>, V)>)
    ensures
        forall|k: Seq<u8>|
            #![trigger map_of(s).dom().contains(k)]
            #![trigger has_key(s, k)]
            map_of(s).dom().contains(k) <==> has_key(s, k),
    decreases s.len(),
{
    if s.len() == 0 {
    } else {
        lemma_map_of_dom(s.drop_last());
        assert forall|k: Seq<u8>| #[trigger] map_of(s).dom().contains(k) implies has_key(s, k) by {
            if k == s.last().0 {
                assert(s[s.len() - 1].0 == k);
            } else {
                assert(map_of(s.drop_last()).dom().contains(k));
                assert(has_key(s.drop_last(), k));
                let i = choose|i: int| 0 <= i < s.drop_last().len() && s.drop_last()[i].0 == k;
                assert(s.drop_last()[i] == s[i]);
                assert(s[i].0 == k);
            }
        }
        assert forall|k: Seq<u8>| #[trigger] has_key(s, k) implies map_of(s).dom().contains(k) by {
            let i = choose|i: int| 0 <= i < s.len() && s[i].0 == k;
            if i < s.len() - 1 {
                assert(s.drop_last()[i] == s[i]);
                assert(has_key(s.drop_last(), k));
                assert(map_of(s.drop_last()).dom().contains(k));
            } else {
                assert(s.last().0 == k);
            }
        }
    }
}

/// With distinct keys, the denoted map reads each entry back unchanged.
pub proof fn lemma_map_of_index<V>(s: Seq<(Seq<u8>, V)>, i: int)
    requires
        distinct_keys(s),
        0 <= i < s.len(),
    ensures
        map_of(s).dom().contains(s[i].0),
        map_of(s)[s[i].0] == s[i].1,
    decreases s.len(),
{
    if i == s.len() - 1 {
    } else {
        assert(s.drop_last()[i] == s[i]);
        assert(distinct_keys(s.drop_last())) by {
            assert forall|p: int, q: int|
                0 <= p < q < s.drop_last().len() implies s.drop_last()[p].0 != s.drop_last()[q].0 by {
                assert(s.drop_last()[p] == s[p]);
                assert(s.drop_last()[q] == s[q]);
            }
        }
        lemma_map_of_index(s.drop_last(), i);
        assert(s[i].0 != s[s.len() - 1].0);
    }
}

/// Sorted insertion of one entry: entries below the key keep their place,
/// an entry with the same key is overwritten, everything above shifts up.
pub open spec fn spec_insert<V>(s: Seq<(Seq<u8>, V)>, k: Seq<u8>, v: V) -> Seq<(Seq<u8>, V)>
    decreases s.len(),
{
    if s.len() == 0 {
        seq![(k, v)]
    } else if lex_lt(s[0].0, k) {
        seq![s[0]] + spec_insert(s.drop_first(), k, v)
    } else if s[0].0 == k {
        seq![(k, v)] + s.drop_first()
    } else {
        seq![(k, v)] + s
    }
}

/// The canonical form of an entry sequence: entries applied in order into
/// sorted position, so duplicates resolve last-write-wins and the result is
/// strictly sorted by key.
pub open spec fn canon<V>(s: Seq<(Seq<u8>, V)>) -> Seq<(Seq<u8>, V)>
    decreases s.len(),
{
    if s.len() == 0 {
        Seq::empty()
    } else {
        spec_insert(canon(s.drop_last()), s.last().0, s.last().1)
    }
}

/// Where one entry lands in a sorted sequence: at the first position whose
/// key is not below the new key, replacing it if the keys are equal.
pub proof fn lemma_insert_shape<V>(s: Seq<(Seq<u8>, V)>, k: Seq<u8>, v: V, i: int)
    requires
        0 <= i <= s.len(),
        forall|j: int| 0 <= j < i ==> lex_lt(s[j].0, k),
        i < s.len() ==> !lex_lt(s[i].0, k),
    ensures
        spec_insert(s, k, v) == if i < s.len() && s[i].0 == k {
            s.take(i) + seq![(k, v)] + s.skip(i + 1)
        } else {
            s.take(i) + seq![(k, v)] + s.skip(i)
        },
    decreases i,
{
    if i == 0 {
        if s.len() == 0 {
            assert(spec_insert(s, k, v) =~= s.take(0) + seq![(k, v)] + s.skip(0));
        } else if s[0].0 == k {
            assert(spec_insert(s, k, v) =~= s.take(0) + seq![(k, v)] + s.skip(1));
        } else {
            assert(spec_insert(s, k, v) =~= s.take(0) + seq![(k, v)] + s.skip(0));
        }
    } else {
        let t = s.drop_first();
        assert(lex_lt(s[0].0, k));
        assert forall|j: int| 0 <= j < i - 1 implies lex_lt(t[j].0, k) by {
            assert(t[j] == s[j + 1]);
        }
        assert(i - 1 < t.len() ==> !lex_lt(t[i - 1].0, k)) by {
            if i - 1 < t.len() {
                assert(t[i - 1] == s[i]);
            }
        }
        lemma_insert_shape(t, k, v, i - 1);
        if i < s.len() && s[i].0 == k {
            assert(t[i - 1].0 == k);
            assert(seq![s[0]] + (t.take(i - 1) + seq![(k, v)] + t.skip(i)) =~= s.take(i) + seq![
                (k, v),
            ] + s.skip(i + 1));
        } else {
            assert(seq![s[0]] + (t.take(i - 1) + seq![(k, v)] + t.skip(i - 1)) =~= s.take(i)
                + seq![(k, v)] + s.skip(i));
        }
    }
}

/// Inserting into a sorted sequence keeps it sorted and denotes exactly the
/// map with that key updated.
pub proof fn lemma_insert_sorted<V>(s: Seq<(Seq<u8>, V)>, k: Seq<u8>, v: V)
    requires
        sorted_strict(s),
    ensures
        sorted_strict(spec_insert(s, k, v)),
        map_of(spec_insert(s, k, v)) == map_of(s).insert(k, v),
    decreases s.len(),
{
    let ins = spec_insert(s, k, v);
    let i = lemma_first_not_below(s, k);
    lemma_insert_shape(s, k, v, i);
    let replaced = i < s.len() && s[i].0 == k;
    if i < s.len() && !replaced {
        lemma_lex_connected(s[i].0, k);
        assert(lex_lt(k, s[i].0));
    }
    // the new key sits below every original entry at or above position i
    assert forall|o: int| i <= o < s.len() implies lex_lt(k, s[o].0) || (replaced && o == i) by {
        if !replaced {
            if o > i {
                lemma_lex_trans(k, s[i].0, s[o].0);
            }
        } else {
            if o > i {
                assert(lex_lt(s[i].0, s[o].0));
            }
        }
    }
    // sortedness of the inserted sequence
    assert forall|p: int, q: int| 0 <= p < q < ins.len() implies lex_lt(ins[p].0, ins[q].0) by {
        lemma_insert_index_facts(s, k, v, i, p);
        lemma_insert_index_facts(s, k, v, i, q);
        if p < i && q == i {
            assert(lex_lt(s[p].0, k));
        } else if p == i && q > i {
            let oq = if replaced {
                q
            } else {
                q - 1
            };
            assert(ins[q] == s[oq]);
            assert(oq > i || !replaced);
            assert(lex_lt(k, s[oq].0));
        }
    }
    // map equality
    lemma_sorted_distinct_insert(s, k, v, i);
}

/// The first index whose key is not below `k`: everything before it is
/// strictly below.
proof fn lemma_first_not_below<V>(s: Seq<(Seq<u8>, V)>, k: Seq<u8>) -> (i: int)
    ensures
        0 <= i <= s.len(),
        forall|j: int| 0 <= j < i ==> lex_lt(s[j].0, k),
        i < s.len() ==> !lex_lt(s[i].0, k),
    decreases s.len(),
{
    if s.len() == 0 {
        0
    } else if !lex_lt(s[0].0, k) {
        0
    } else {
        let t = s.drop_first();
        let it = lemma_first_not_below(t, k);
        assert forall|j: int| 0 <= j < it + 1 implies lex_lt(s[j].0, k) by {
            if j > 0 {
                assert(t[j - 1] == s[j]);
            }
        }
        assert(it + 1 < s.len() ==> !lex_lt(s[it + 1].0, k)) by {
            if it + 1 < s.len() {
                assert(t[it] == s[it + 1]);
            }
        }
        it + 1
    }
}

/// What stands at each index of an inserted sequence.
proof fn lemma_insert_index_facts<V>(s: Seq<(Seq<u8>, V)>, k: Seq<u8>, v: V, i: int, p: int)
    requires
        0 <= i <= s.len(),
        forall|j: int| 0 <= j < i ==> lex_lt(s[j].0, k),
        i < s.len() ==> !lex_lt(s[i].0, k),
        0 <= p < spec_insert(s, k, v).len(),
    ensures
        p < i ==> spec_insert(s, k, v)[p] == s[p] && lex_lt(s[p].0, k),
        p == i ==> spec_insert(s, k, v)[p] == (k, v),
        p > i ==> {
            let o = if i < s.len() && s[i].0 == k {
                p
            } else {
                p - 1
            };
            spec_insert(s, k, v)[p] == s[o] && i <= o < s.len()
        },
{
    lemma_insert_shape(s, k, v, i);
}

/// The inserted sequence denotes the updated map, provided the original was
/// sorted.
proof fn lemma_sorted_distinct_insert<V>(s: Seq<(Seq<u8>, V)>, k: Seq<u8>, v: V, i: int)
    requires
        sorted_strict(s),
        sorted_strict(spec_insert(s, k, v)),
        0 <= i <= s.len(),
        forall|j: int| 0 <= j < i ==> lex_lt(s[j].0, k),
        i < s.len() ==> !lex_lt(s[i].0, k),
    ensures
        map_of(spec_insert(s, k, v)) == map_of(s).insert(k, v),
{
    let ins = spec_insert(s, k, v);
    lemma_insert_shape(s, k, v, i);
    lemma_sorted_distinct(s);
    lemma_sorted_distinct(ins);
    lemma_map_of_dom(s);
    lemma_map_of_dom(ins);
    let replaced = i < s.len() && s[i].0 == k;
    assert forall|x: Seq<u8>| #[trigger] map_of(ins).dom().contains(x) implies map_of(s).insert(
        k,
        v,
    ).dom().contains(x) by {
        let p = choose|p: int| 0 <= p < ins.len() && ins[p].0 == x;
        lemma_insert_index_facts(s, k, v, i, p);
        if p != i {
            let o = if p < i {
                p
            } else if replaced {
                p
            } else {
                p - 1
            };
            assert(s[o].0 == x);
            assert(has_key(s, x));
        }
    }
    assert forall|x: Seq<u8>| #[trigger] map_of(s).insert(k, v).dom().contains(x) implies map_of(
        ins,
    ).dom().contains(x) by {
        if x == k {
            assert(ins[i].0 == x) by {
                lemma_insert_index_facts(s, k, v, i, i);
            }
            assert(has_key(ins, x));
        } else {
            let o = choose|o: int| 0 <= o < s.len() && s[o].0 == x;
            let p = if o < i {
                o
            } else if replaced {
                o
            } else {
                o + 1
            };
            assert(o != i || !replaced);
            lemma_insert_index_facts(s, k, v, i, p);
            assert(ins[p].0 == x);
            assert(has_key(ins, x));
        }
    }
    assert forall|x: Seq<u8>| #[trigger] map_of(ins).dom().contains(x) implies map_of(ins)[x]
        == map_of(s).insert(k, v)[x] by {
        let p = choose|p: int| 0 <= p < ins.len() && ins[p].0 == x;
        lemma_map_of_index(ins, p);
        lemma_insert_index_facts(s, k, v, i, p);
        if p == i {
            assert(map_of(ins)[x] == v);
        } else {
            let o = if p < i {
                p
            } else if replaced {
                p
            } else {
                p - 1
            };
            assert(ins[p] == s[o]);
            assert(x != k) by {
                if p < i {
                    lemma_lex_irrefl(k);
                } else {
                    assert(lex_lt(ins[i].0, ins[p].0)) by {
                        lemma_insert_index_facts(s, k, v, i, i);
                    }
                    lemma_lex_irrefl(k);
                }
            }
            lemma_map_of_index(s, o);
        }
    }
    assert(map_of(ins) =~= map_of(s).insert(k, v));
}

/// Every entry of an inserted sequence is the new entry or one of the
/// originals, so insertion introduces nothing else.
pub proof fn lemma_insert_membership<V>(s: Seq<(Seq<u8>, V)>, k: Seq<u8>, v: V)
    ensures
        forall|p: int|
            0 <= p < spec_insert(s, k, v).len() ==> (#[trigger] spec_insert(s, k, v)[p] == (k, v)
                || exists|j: int| 0 <= j < s.len() && spec_insert(s, k, v)[p] == s[j]),
{
    let i = lemma_first_not_below(s, k);
    assert forall|p: int| 0 <= p < spec_insert(s, k, v).len() implies (#[trigger] spec_insert(
        s,
        k,
        v,
    )[p] == (k, v) || exists|j: int| 0 <= j < s.len() && spec_insert(s, k, v)[p] == s[j]) by {
        lemma_insert_index_facts(s, k, v, i, p);
        if p < i {
            assert(spec_insert(s, k, v)[p] == s[p]);
            assert(exists|j: int| 0 <= j < s.len() && spec_insert(s, k, v)[p] == s[j]);
        } else if p > i {
            let o = if i < s.len() && s[i].0 == k {
                p
            } else {
                p - 1
            };
            assert(spec_insert(s, k, v)[p] == s[o]);
            assert(exists|j: int| 0 <= j < s.len() && spec_insert(s, k, v)[p] == s[j]);
        }
    }
}

/// The canonical form is sorted and denotes the same map as its input.
pub proof fn lemma_canon<V>(s: Seq<(Seq<u8>, V)>)
    ensures
        sorted_strict(canon(s)),
        map_of(canon(s)) == map_of(s),
    decreases s.len(),
{
    if s.len() > 0 {
        lemma_canon(s.drop_last());
        lemma_insert_sorted(canon(s.drop_last()), s.last().0, s.last().1);
    }
}

/// A strictly sorted entry sequence is uniquely determined by the map it
/// denotes: this is what makes the serialized output independent of the
/// caller's iteration order.
pub proof fn lemma_sorted_canonical<V>(s1: Seq<(Seq<u8>, V)>, s2: Seq<(Seq<u8>, V)>)
    requires
        sorted_strict(s1),
        sorted_strict(s2),
        map_of(s1) == map_of(s2),
    ensures
        s1 == s2,
    decreases s1.len(),
{
    lemma_map_of_dom(s1);
    lemma_map_of_dom(s2);
    lemma_sorted_distinct(s1);
    lemma_sorted_distinct(s2);
    if s1.len() == 0 && s2.len() == 0 {
        assert(s1 =~= s2);
    } else if s1.len() == 0 {
        assert(s2[0].0 == s2[0].0);
        assert(has_key(s2, s2[0].0));
        assert(map_of(s1).dom().contains(s2[0].0));
        assert(false);
    } else if s2.len() == 0 {
        assert(s1[0].0 == s1[0].0);
        assert(has_key(s1, s1[0].0));
        assert(map_of(s2).dom().contains(s1[0].0));
        assert(false);
    } else {
        let k1 = s1.last().0;
        let k2 = s2.last().0;
        assert(s1[s1.len() - 1].0 == k1);
        assert(has_key(s1, k1));
        assert(has_key(s2, k1));
        let j = choose|j: int| 0 <= j < s2.len() && s2[j].0 == k1;
        assert(s2[s2.len() - 1].0 == k2);
        assert(has_key(s2, k2));
        assert(has_key(s1, k2));
        let i = choose|i: int| 0 <= i < s1.len() && s1[i].0 == k2;
        if k1 != k2 {
            assert(j < s2.len() - 1);
            assert(lex_lt(k1, k2));
            assert(i < s1.len() - 1);
            assert(lex_lt(k2, k1));
            lemma_lex_trans(k1, k2, k1);
            lemma_lex_irrefl(k1);
            assert(false);
        }
        lemma_map_of_index(s1, s1.len() - 1);
        lemma_map_of_index(s2, s2.len() - 1);
        assert(s1.last().1 == s2.last().1);
        let t1 = s1.drop_last();
        let t2 = s2.drop_last();
        assert(sorted_strict(t1)) by {
            assert forall|p: int, q: int| 0 <= p < q < t1.len() implies lex_lt(
                t1[p].0,
                t1[q].0,
            ) by {
                assert(t1[p] == s1[p]);
                assert(t1[q] == s1[q]);
            }
        }
        assert(sorted_strict(t2)) by {
            assert forall|p: int, q: int| 0 <= p < q < t2.len() implies lex_lt(
                t2[p].0,
                t2[q].0,
            ) by {
                assert(t2[p] == s2[p]);
                assert(t2[q] == s2[q]);
            }
        }
        lemma_map_of_dom(t1);
        lemma_map_of_dom(t2);
        assert(!has_key(t1, k1)) by {
            if has_key(t1, k1) {
                let p = choose|p: int| 0 <= p < t1.len() && t1[p].0 == k1;
                assert(s1[p].0 == k1);
                lemma_lex_irrefl(k1);
            }
        }
        assert(!has_key(t2, k2)) by {
            if has_key(t2, k2) {
                let p = choose|p: int| 0 <= p < t2.len() && t2[p].0 == k2;
                assert(s2[p].0 == k2);
                lemma_lex_irrefl(k2);
            }
        }
        assert(map_of(t1) =~= map_of(s1).remove(k1));
        assert(map_of(t2) =~= map_of(s2).remove(k2));
        lemma_sorted_canonical(t1, t2);
        assert(s1 =~= s2) by {
            assert(s1.len() == s2.len());
            assert forall|p: int| 0 <= p < s1.len() implies s1[p] == s2[p] by {
                if p < s1.len() - 1 {
                    assert(t1[p] == s1[p]);
                    assert(t2[p] == s2[p]);
                }
            }
        }
    }
}

/// Compares two byte keys in strict lexicographic order.
pub fn key_lt(a: &Vec<u8>, b: &Vec<u8>) -> (r: bool)
    ensures
        r == lex_lt(a@, b@),
{
    let mut i: usize = 0;
    proof {
        assert(a@.skip(0) =~= a@);
        assert(b@.skip(0) =~= b@);
    }
    loop
        invariant
            i <= a@.len(),
            i <= b@.len(),
            lex_lt(a@, b@) == lex_lt(a@.skip(i as int), b@.skip(i as int)),
        decreases a@.len() - i,
    {
        let ghost sa = a@.skip(i as int);
        let ghost sb = b@.skip(i as int);
        if i == a.len() {
            return i < b.len();
        }
        if i == b.len() {
            return false;
        }
        let x = a[i];
        let y = b[i];
        proof {
            assert(sa[0] == a@[i as int]);
            assert(sb[0] == b@[i as int]);
        }
        if x < y {
            return true;
        }
        if x > y {
            return false;
        }
        proof {
            assert(sa.drop_first() =~= a@.skip(i + 1));
            assert(sb.drop_first() =~= b@.skip(i + 1));
        }
        i += 1;
    }
}

/// Tests two byte keys for equality.
pub fn key_eq(a: &Vec<u8>, b: &Vec<u8>) -> (r: bool)
    ensures
        r == (a@ == b@),
{
    if a.len() != b.len() {
        return false;
    }
    let n = a.len();
    let mut i: usize = 0;
    while i < n
        invariant
            n == a@.len(),
            n == b@.len(),
            0 <= i <= n,
            forall|j: int| 0 <= j < i ==> a@[j] == b@[j],
        decreases n - i,
    {
        if a[i] != b[i] {
            return false;
        }
        i += 1;
    }
    proof {
        assert(a@ =~= b@);
    }
    true
}

} // verus!
