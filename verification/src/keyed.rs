//! Sequences of (key, value) pairs kept in strictly ascending key order,
//! and the maps they stand for.
use vstd::prelude::*;
use crate::text::{chars_of, chars_order, lemma_seq_less_transitive, lemma_seq_less_trichotomy, seq_less, Order};

verus! {

/// The keys ascend strictly, so no key occurs twice.
pub open spec fn keys_ascending<X>(s: Seq<(Seq<char>, X)>) -> bool {
    forall|i: int, j: int| 0 <= i < j < s.len() ==> seq_less(#[trigger] s[i].0, #[trigger] s[j].0)
}

/// Whether `k` is a key of `s`.
pub open spec fn has_key<X>(s: Seq<(Seq<char>, X)>, k: Seq<char>) -> bool {
    exists|i: int| 0 <= i < s.len() && #[trigger] s[i].0 == k
}

/// A position of key `k` in `s`, where it occurs.
pub open spec fn key_position<X>(s: Seq<(Seq<char>, X)>, k: Seq<char>) -> int {
    choose|i: int| 0 <= i < s.len() && #[trigger] s[i].0 == k
}

/// The map that `s` stands for: each key to the value paired with it.
pub open spec fn keyed_map<X>(s: Seq<(Seq<char>, X)>) -> Map<Seq<char>, X> {
    Map::new(|k: Seq<char>| has_key(s, k), |k: Seq<char>| s[key_position(s, k)].1)
}

/// In an ascending sequence, a key sits at one position only.
pub proof fn lemma_key_unique<X>(s: Seq<(Seq<char>, X)>, i: int, j: int)
    requires
        keys_ascending(s),
        0 <= i < s.len(),
        0 <= j < s.len(),
        s[i].0 == s[j].0,
    ensures
        i == j,
{
    lemma_seq_less_trichotomy(s[i].0, s[j].0);
    if i < j {
        assert(seq_less(s[i].0, s[j].0));
    } else if j < i {
        assert(seq_less(s[j].0, s[i].0));
    }
}

/// The value at a position is what the map gives for its key.
pub proof fn lemma_keyed_map_at<X>(s: Seq<(Seq<char>, X)>, i: int)
    requires
        keys_ascending(s),
        0 <= i < s.len(),
    ensures
        keyed_map(s).dom().contains(s[i].0),
        keyed_map(s)[s[i].0] == s[i].1,
{
    let k = s[i].0;
    assert(has_key(s, k));
    let j = key_position(s, k);
    assert(0 <= j < s.len() && s[j].0 == k);
    lemma_key_unique(s, i, j);
    assert(keyed_map(s).dom().contains(k));
    assert(keyed_map(s)[k] == s[key_position(s, k)].1);
    assert(keyed_map(s)[k] == s[j].1);
}

/// Replacing the value at the position of key `k`.
pub proof fn lemma_keyed_map_update<X>(s: Seq<(Seq<char>, X)>, i: int, v: X)
    requires
        keys_ascending(s),
        0 <= i < s.len(),
    ensures
        keys_ascending(s.update(i, (s[i].0, v))),
        keyed_map(s.update(i, (s[i].0, v))) == keyed_map(s).insert(s[i].0, v),
{
    let t = s.update(i, (s[i].0, v));
    let k = s[i].0;
    assert(keys_ascending(t)) by {
        assert forall|a: int, b: int| 0 <= a < b < t.len() implies seq_less(
            #[trigger] t[a].0,
            #[trigger] t[b].0,
        ) by {
            assert(t[a].0 == s[a].0);
            assert(t[b].0 == s[b].0);
        }
    }
    assert forall|q: Seq<char>| #[trigger] has_key(t, q) <==> has_key(s, q) || q == k by {
        if has_key(t, q) {
            let a = choose|a: int| 0 <= a < t.len() && #[trigger] t[a].0 == q;
            assert(s[a].0 == q);
        }
        if has_key(s, q) {
            let a = choose|a: int| 0 <= a < s.len() && #[trigger] s[a].0 == q;
            assert(t[a].0 == q);
        }
        if q == k {
            assert(t[i].0 == q);
        }
    }
    assert forall|q: Seq<char>| #[trigger] keyed_map(t).dom().contains(q) implies keyed_map(t)[q]
        == keyed_map(s).insert(k, v)[q] by {
        let a = choose|a: int| 0 <= a < t.len() && #[trigger] t[a].0 == q;
        lemma_keyed_map_at(t, a);
        if a == i {
        } else {
            assert(s[a].0 == q);
            lemma_keyed_map_at(s, a);
            if q == k {
                lemma_key_unique(s, a, i);
            }
        }
    }
    assert(keyed_map(t) =~= keyed_map(s).insert(k, v));
}

/// Inserting a new key at the position that keeps the order.
pub proof fn lemma_keyed_map_insert<X>(s: Seq<(Seq<char>, X)>, i: int, k: Seq<char>, v: X)
    requires
        keys_ascending(s),
        0 <= i <= s.len(),
        forall|j: int| 0 <= j < i ==> seq_less(#[trigger] s[j].0, k),
        forall|j: int| i <= j < s.len() ==> seq_less(k, #[trigger] s[j].0),
    ensures
        keys_ascending(s.insert(i, (k, v))),
        keyed_map(s.insert(i, (k, v))) == keyed_map(s).insert(k, v),
{
    let t = s.insert(i, (k, v));
    assert(keys_ascending(t)) by {
        assert forall|a: int, b: int| 0 <= a < b < t.len() implies seq_less(
            #[trigger] t[a].0,
            #[trigger] t[b].0,
        ) by {
            if a < i && b < i {
            } else if a < i && b == i {
            } else if a < i {
                assert(t[b] == s[b - 1]);
            } else if a == i {
                assert(t[b] == s[b - 1]);
            } else {
                assert(t[a] == s[a - 1]);
                assert(t[b] == s[b - 1]);
            }
        }
    }
    assert forall|q: Seq<char>| #[trigger] has_key(t, q) <==> has_key(s, q) || q == k by {
        if has_key(t, q) {
            let a = choose|a: int| 0 <= a < t.len() && #[trigger] t[a].0 == q;
            if a < i {
                assert(s[a].0 == q);
            } else if a > i {
                assert(s[a - 1].0 == q);
            }
        }
        if has_key(s, q) {
            let a = choose|a: int| 0 <= a < s.len() && #[trigger] s[a].0 == q;
            if a < i {
                assert(t[a].0 == q);
            } else {
                assert(t[a + 1].0 == q);
            }
        }
        if q == k {
            assert(t[i].0 == q);
        }
    }
    assert forall|q: Seq<char>| #[trigger] keyed_map(t).dom().contains(q) implies keyed_map(t)[q]
        == keyed_map(s).insert(k, v)[q] by {
        let a = choose|a: int| 0 <= a < t.len() && #[trigger] t[a].0 == q;
        lemma_keyed_map_at(t, a);
        if a < i {
            assert(t[a] == s[a]);
            lemma_keyed_map_at(s, a);
            lemma_seq_less_trichotomy(q, k);
        } else if a > i {
            assert(t[a] == s[a - 1]);
            lemma_keyed_map_at(s, a - 1);
            lemma_seq_less_trichotomy(q, k);
        }
    }
    assert(keyed_map(t) =~= keyed_map(s).insert(k, v));
}

/// Where `key` sits in `keys`, or where it would be inserted: every key
/// before that position is smaller, and the key at it, if any, is not.
pub fn find_slot(keys: &Vec<Vec<char>>, key: &Vec<char>) -> (r: (usize, bool))
    requires
        forall|a: int, b: int| 0 <= a < b < keys@.len() ==> seq_less(#[trigger] keys@[a]@, #[trigger] keys@[b]@),
    ensures
        r.0 <= keys@.len(),
        forall|j: int| 0 <= j < r.0 ==> seq_less(#[trigger] keys@[j]@, key@),
        r.1 ==> r.0 < keys@.len() && keys@[r.0 as int]@ == key@,
        !r.1 ==> forall|j: int| r.0 <= j < keys@.len() ==> seq_less(key@, #[trigger] keys@[j]@),
{
    let n: usize = keys.len();
    let mut i: usize = 0;
    while i < n
        invariant
            n == keys@.len(),
            i <= n,
            forall|a: int, b: int| 0 <= a < b < keys@.len() ==> seq_less(#[trigger] keys@[a]@, #[trigger] keys@[b]@),
            forall|j: int| 0 <= j < i ==> seq_less(#[trigger] keys@[j]@, key@),
        decreases n - i,
    {
        match chars_order(&keys[i], key) {
            Order::Less => {
                i = i + 1;
            },
            Order::Equal => {
                return (i, true);
            },
            Order::Greater => {
                assert forall|j: int| i <= j < keys@.len() implies seq_less(key@, #[trigger] keys@[j]@) by {
                    if j > i {
                        lemma_seq_less_transitive(key@, keys@[i as int]@, keys@[j]@);
                    }
                }
                return (i, false);
            },
        }
    }
    (i, false)
}

/// The key characters drawn from pairs whose keys are those of an
/// ascending sequence ascend too.
pub proof fn lemma_key_chars_ascend<X, T>(s: Seq<(Seq<char>, X)>, pairs: Seq<(String, T)>, keys: Seq<Vec<char>>)
    requires
        keys_ascending(s),
        s.len() == pairs.len(),
        keys.len() == pairs.len(),
        forall|j: int| 0 <= j < s.len() ==> #[trigger] s[j].0 == pairs[j].0@,
        forall|j: int| 0 <= j < keys.len() ==> (#[trigger] keys[j])@ == pairs[j].0@,
    ensures
        forall|a: int, b: int| 0 <= a < b < keys.len() ==> seq_less(#[trigger] keys[a]@, #[trigger] keys[b]@),
{
    assert forall|a: int, b: int| 0 <= a < b < keys.len() implies seq_less(#[trigger] keys[a]@, #[trigger] keys[b]@) by {
        assert(keys[a]@ == s[a].0);
        assert(keys[b]@ == s[b].0);
    }
}

/// The characters of each key of `s`.
pub fn key_chars<T>(s: &Vec<(String, T)>) -> (r: Vec<Vec<char>>)
    ensures
        r@.len() == s@.len(),
        forall|j: int| 0 <= j < s@.len() ==> (#[trigger] r@[j])@ == s@[j].0@,
{
    let mut r: Vec<Vec<char>> = Vec::new();
    let n: usize = s.len();
    let mut i: usize = 0;
    while i < n
        invariant
            n == s@.len(),
            i <= n,
            r@.len() == i,
            forall|j: int| 0 <= j < i ==> (#[trigger] r@[j])@ == s@[j].0@,
        decreases n - i,
    {
        r.push(chars_of(s[i].0.as_str()));
        i = i + 1;
    }
    r
}

/// Taking off the first pair takes its key out of the map.
pub proof fn lemma_keyed_map_drop_first<X>(s: Seq<(Seq<char>, X)>)
    requires
        keys_ascending(s),
        s.len() > 0,
    ensures
        keys_ascending(s.drop_first()),
        keyed_map(s.drop_first()) == keyed_map(s).remove(s[0].0),
{
    let t = s.drop_first();
    let k = s[0].0;
    assert(keys_ascending(t)) by {
        assert forall|a: int, b: int| 0 <= a < b < t.len() implies seq_less(
            #[trigger] t[a].0,
            #[trigger] t[b].0,
        ) by {
            assert(t[a] == s[a + 1]);
            assert(t[b] == s[b + 1]);
        }
    }
    assert forall|q: Seq<char>| #[trigger] has_key(t, q) <==> has_key(s, q) && q != k by {
        if has_key(t, q) {
            let a = choose|a: int| 0 <= a < t.len() && #[trigger] t[a].0 == q;
            assert(s[a + 1].0 == q);
            lemma_seq_less_trichotomy(k, q);
            assert(seq_less(s[0].0, s[a + 1].0));
        }
        if has_key(s, q) && q != k {
            let a = choose|a: int| 0 <= a < s.len() && #[trigger] s[a].0 == q;
            assert(a != 0);
            assert(t[a - 1].0 == q);
        }
    }
    assert forall|q: Seq<char>| #[trigger] keyed_map(t).dom().contains(q) implies keyed_map(t)[q]
        == keyed_map(s).remove(k)[q] by {
        let a = choose|a: int| 0 <= a < t.len() && #[trigger] t[a].0 == q;
        lemma_keyed_map_at(t, a);
        lemma_keyed_map_at(s, a + 1);
    }
    assert(keyed_map(t) =~= keyed_map(s).remove(k));
}

/// An ascending sequence is the only one that stands for its map.
pub proof fn lemma_ascending_unique<X>(s: Seq<(Seq<char>, X)>, t: Seq<(Seq<char>, X)>)
    requires
        keys_ascending(s),
        keys_ascending(t),
        keyed_map(s) == keyed_map(t),
    ensures
        s == t,
    decreases s.len(),
{
    if s.len() == 0 {
        if t.len() > 0 {
            lemma_keyed_map_at(t, 0);
            assert(!has_key(s, t[0].0));
        }
        assert(s =~= t);
    } else {
        lemma_keyed_map_at(s, 0);
        if t.len() == 0 {
            assert(!has_key(t, s[0].0));
        }
        lemma_keyed_map_at(t, 0);
        let a = s[0].0;
        let b = t[0].0;
        assert(has_key(t, a));
        assert(has_key(s, b));
        let j = choose|j: int| 0 <= j < t.len() && #[trigger] t[j].0 == a;
        let k = choose|k: int| 0 <= k < s.len() && #[trigger] s[k].0 == b;
        lemma_seq_less_trichotomy(a, b);
        if j > 0 && k > 0 {
            assert(seq_less(t[0].0, t[j].0));
            assert(seq_less(s[0].0, s[k].0));
        }
        assert(a == b);
        assert(s[0].1 == t[0].1);
        lemma_keyed_map_drop_first(s);
        lemma_keyed_map_drop_first(t);
        lemma_ascending_unique(s.drop_first(), t.drop_first());
        assert(s =~= seq![s[0]] + s.drop_first());
        assert(t =~= seq![t[0]] + t.drop_first());
    }
}

} // verus!
