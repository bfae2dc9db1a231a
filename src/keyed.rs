//! Maps described by sequences of key/value pairs, keyed by strings.
use vstd::prelude::*;

verus! {

/// The map that a sequence of key/value pairs describes: a later pair
/// overrides an earlier one with the same key.
pub open spec fn keyed<V>(s: Seq<(Seq<char>, V)>) -> Map<Seq<char>, V>
    decreases s.len(),
{
    if s.len() == 0 {
        Map::empty()
    } else {
        keyed(s.drop_last()).insert(s.last().0, s.last().1)
    }
}

/// No key occurs twice in `s`.
pub open spec fn keys_unique<V>(s: Seq<(Seq<char>, V)>) -> bool {
    forall|i: int, j: int| 0 <= i < j < s.len() ==> s[i].0 != s[j].0
}

/// A key is in the map exactly when some pair carries it.
pub proof fn lemma_keyed_domain<V>(s: Seq<(Seq<char>, V)>, k: Seq<char>)
    ensures
        keyed(s).contains_key(k) <==> exists|i: int| 0 <= i < s.len() && s[i].0 == k,
    decreases s.len(),
{
    if s.len() > 0 {
        let t = s.drop_last();
        lemma_keyed_domain(t, k);
        if keyed(s).contains_key(k) {
            if k == s.last().0 {
                assert(s[s.len() - 1].0 == k);
            } else {
                let i = choose|i: int| 0 <= i < t.len() && t[i].0 == k;
                assert(s[i].0 == k);
            }
        }
        if exists|i: int| 0 <= i < s.len() && s[i].0 == k {
            let i = choose|i: int| 0 <= i < s.len() && s[i].0 == k;
            if i < s.len() - 1 {
                assert(t[i].0 == k);
            }
        }
    }
}

/// With unique keys, each pair gives the value of its key.
pub proof fn lemma_keyed_value<V>(s: Seq<(Seq<char>, V)>, i: int)
    requires
        keys_unique(s),
        0 <= i < s.len(),
    ensures
        keyed(s).contains_key(s[i].0),
        keyed(s)[s[i].0] == s[i].1,
    decreases s.len(),
{
    if i < s.len() - 1 {
        let t = s.drop_last();
        assert(keys_unique(t));
        lemma_keyed_value(t, i);
        assert(s[i].0 != s[s.len() - 1].0);
    }
}

/// Replacing the value of a pair, with unique keys, replaces the value of its key.
pub proof fn lemma_keyed_update<V>(s: Seq<(Seq<char>, V)>, i: int, v: V)
    requires
        keys_unique(s),
        0 <= i < s.len(),
    ensures
        keys_unique(s.update(i, (s[i].0, v))),
        keyed(s.update(i, (s[i].0, v))) == keyed(s).insert(s[i].0, v),
    decreases s.len(),
{
    let k = s[i].0;
    let u = s.update(i, (k, v));
    let t = s.drop_last();
    assert(keys_unique(u)) by {
        assert forall|a: int, b: int| 0 <= a < b < u.len() implies u[a].0 != u[b].0 by {
            assert(u[a].0 == s[a].0);
            assert(u[b].0 == s[b].0);
        }
    }
    if i == s.len() - 1 {
        assert(u.drop_last() =~= t);
        assert(keyed(u) =~= keyed(s).insert(k, v));
    } else {
        assert(keys_unique(t));
        lemma_keyed_update(t, i, v);
        assert(u.drop_last() =~= t.update(i, (k, v)));
        assert(s.last().0 != k);
        assert(keyed(u) =~= keyed(s).insert(k, v));
    }
}

/// Appending a pair inserts its key.
pub proof fn lemma_keyed_push<V>(s: Seq<(Seq<char>, V)>, k: Seq<char>, v: V)
    ensures
        keyed(s.push((k, v))) == keyed(s).insert(k, v),
{
    assert(s.push((k, v)).drop_last() =~= s);
}

/// Inserting a pair with a new key, anywhere, inserts that key.
pub proof fn lemma_keyed_insert<V>(s: Seq<(Seq<char>, V)>, i: int, k: Seq<char>, v: V)
    requires
        keys_unique(s),
        0 <= i <= s.len(),
        forall|j: int| 0 <= j < s.len() ==> s[j].0 != k,
    ensures
        keys_unique(s.insert(i, (k, v))),
        keyed(s.insert(i, (k, v))) == keyed(s).insert(k, v),
{
    let u = s.insert(i, (k, v));
    s.insert_ensures(i, (k, v));
    assert(keys_unique(u)) by {
        assert forall|a: int, b: int| 0 <= a < b < u.len() implies u[a].0 != u[b].0 by {
            if b < i {
            } else if b == i {
                assert(u[a] == s[a]);
            } else if a < i {
                assert(u[b] == s[b - 1]);
            } else if a == i {
                assert(u[b] == s[b - 1]);
            } else {
                assert(u[a] == s[a - 1]);
                assert(u[b] == s[b - 1]);
            }
        }
    }
    let m = keyed(s).insert(k, v);
    assert forall|q: Seq<char>| #[trigger] keyed(u).contains_key(q) == m.contains_key(q) by {
        lemma_keyed_domain(u, q);
        lemma_keyed_domain(s, q);
        if keyed(s).contains_key(q) {
            let j = choose|j: int| 0 <= j < s.len() && s[j].0 == q;
            if j < i {
                assert(u[j].0 == q);
            } else {
                assert(u[j + 1].0 == q);
            }
        }
        if q == k {
            assert(u[i].0 == q);
        }
        if keyed(u).contains_key(q) && q != k {
            let j = choose|j: int| 0 <= j < u.len() && u[j].0 == q;
            if j < i {
                assert(s[j].0 == q);
            } else if j > i {
                assert(s[j - 1].0 == q);
            }
        }
    }
    assert forall|q: Seq<char>| keyed(u).contains_key(q) implies #[trigger] keyed(u)[q] == m[q] by {
        lemma_keyed_domain(u, q);
        let j = choose|j: int| 0 <= j < u.len() && u[j].0 == q;
        lemma_keyed_value(u, j);
        if j < i {
            lemma_keyed_value(s, j);
        } else if j > i {
            lemma_keyed_value(s, j - 1);
        }
    }
    assert(keyed(u) =~= m);
}

/// With unique keys the map has one key per pair.
pub proof fn lemma_keyed_len<V>(s: Seq<(Seq<char>, V)>)
    requires
        keys_unique(s),
    ensures
        keyed(s).dom().finite(),
        keyed(s).dom().len() == s.len(),
    decreases s.len(),
{
    if s.len() > 0 {
        let t = s.drop_last();
        assert(keys_unique(t));
        lemma_keyed_len(t);
        lemma_keyed_domain(t, s.last().0);
        if keyed(t).contains_key(s.last().0) {
            let j = choose|j: int| 0 <= j < t.len() && t[j].0 == s.last().0;
            assert(s[j].0 == s[s.len() - 1].0);
        }
        assert(keyed(s).dom() =~= keyed(t).dom().insert(s.last().0));
    }
}

} // verus!
