//! A table kept as a vector of `(key, value)` entries in increasing key
//! order, and the map it stands for.
use vstd::prelude::*;

verus! {

/// The keys of `s` increase strictly from one entry to the next.
pub open spec fn increasing<V>(s: Seq<(usize, V)>) -> bool {
    forall|i: int, j: int| 0 <= i < j < s.len() ==> s[i].0 < s[j].0
}

/// The map that the entries of `s` stand for.
pub open spec fn table<V>(s: Seq<(usize, V)>) -> Map<usize, V>
    decreases s.len(),
{
    if s.len() == 0 {
        Map::empty()
    } else {
        table(s.drop_last()).insert(s.last().0, s.last().1)
    }
}

/// Where key `k` sits in `s`, if it does.
pub open spec fn position<V>(s: Seq<(usize, V)>, k: usize) -> int {
    choose|i: int| 0 <= i < s.len() && s[i].0 == k
}

pub proof fn lemma_table<V>(s: Seq<(usize, V)>)
    requires
        increasing(s),
    ensures
        forall|i: int| 0 <= i < s.len() ==> #[trigger] table(s).contains_key(s[i].0) && table(s)[s[i].0] == s[i].1,
        forall|k: usize| #[trigger] table(s).contains_key(k) ==> exists|i: int| 0 <= i < s.len() && s[i].0 == k,
    decreases s.len(),
{
    if s.len() > 0 {
        let t = s.drop_last();
        assert(increasing(t));
        lemma_table(t);
        assert forall|i: int| 0 <= i < s.len() implies #[trigger] table(s).contains_key(s[i].0) && table(s)[s[i].0] == s[i].1 by {
            if i < s.len() - 1 {
                assert(t[i] == s[i]);
                assert(s[i].0 < s.last().0);
                assert(table(t).contains_key(t[i].0));
            }
        }
        assert forall|k: usize| #[trigger] table(s).contains_key(k) implies exists|i: int| 0 <= i < s.len() && s[i].0 == k by {
            if k != s.last().0 {
                assert(table(t).contains_key(k));
                let i = choose|i: int| 0 <= i < t.len() && t[i].0 == k;
                assert(s[i].0 == k);
            } else {
                assert(s[s.len() - 1].0 == k);
            }
        }
    }
}

/// Keys in an increasing table are found at a unique position.
pub proof fn lemma_position<V>(s: Seq<(usize, V)>, i: int)
    requires
        increasing(s),
        0 <= i < s.len(),
    ensures
        position(s, s[i].0) == i,
        table(s).contains_key(s[i].0),
        table(s)[s[i].0] == s[i].1,
{
    lemma_table(s);
    assert(table(s).contains_key(s[i].0));
    let j = position(s, s[i].0);
    assert(0 <= j < s.len() && s[j].0 == s[i].0);
    if j < i {
        assert(s[j].0 < s[i].0);
    } else if i < j {
        assert(s[i].0 < s[j].0);
    }
}

/// Appending an entry with a larger key inserts it.
pub proof fn lemma_push<V>(s: Seq<(usize, V)>, k: usize, v: V)
    ensures
        table(s.push((k, v))) == table(s).insert(k, v),
{
    assert(s.push((k, v)).drop_last() =~= s);
}

/// Replacing the value at position `i` updates its key.
pub proof fn lemma_update<V>(s: Seq<(usize, V)>, i: int, v: V)
    requires
        increasing(s),
        0 <= i < s.len(),
    ensures
        increasing(s.update(i, (s[i].0, v))),
        table(s.update(i, (s[i].0, v))) == table(s).insert(s[i].0, v),
{
    let u = s.update(i, (s[i].0, v));
    assert(increasing(u));
    lemma_table(s);
    lemma_table(u);
    let k = s[i].0;
    assert forall|x: usize| #[trigger] table(u).contains_key(x) <==> table(s).insert(k, v).contains_key(x) by {
        if table(u).contains_key(x) {
            let j = choose|j: int| 0 <= j < u.len() && u[j].0 == x;
            assert(s[j].0 == x);
        }
        if table(s).contains_key(x) && x != k {
            let j = choose|j: int| 0 <= j < s.len() && s[j].0 == x;
            assert(u[j].0 == x);
        }
        if x == k {
            assert(u[i].0 == x);
        }
    }
    assert forall|x: usize| #[trigger] table(u).contains_key(x) implies table(u)[x] == table(s).insert(k, v)[x] by {
        let j = choose|j: int| 0 <= j < u.len() && u[j].0 == x;
        if j == i {
        } else {
            assert(s[j] == u[j]);
            assert(x != k) by {
                if j < i {
                    assert(s[j].0 < s[i].0);
                } else {
                    assert(s[i].0 < s[j].0);
                }
            }
        }
    }
    assert(table(u) =~= table(s).insert(k, v));
}

/// Removing the entry at position `i` removes its key.
pub proof fn lemma_remove<V>(s: Seq<(usize, V)>, i: int)
    requires
        increasing(s),
        0 <= i < s.len(),
    ensures
        increasing(s.remove(i)),
        table(s.remove(i)) == table(s).remove(s[i].0),
{
    let u = s.remove(i);
    assert(increasing(u)) by {
        assert forall|a: int, b: int| 0 <= a < b < u.len() implies u[a].0 < u[b].0 by {
            let a2 = if a < i { a } else { a + 1 };
            let b2 = if b < i { b } else { b + 1 };
            assert(u[a] == s[a2] && u[b] == s[b2]);
        }
    }
    lemma_table(s);
    lemma_table(u);
    let k = s[i].0;
    assert forall|x: usize| #[trigger] table(u).contains_key(x) <==> table(s).remove(k).contains_key(x) by {
        if table(u).contains_key(x) {
            let j = choose|j: int| 0 <= j < u.len() && u[j].0 == x;
            let j2 = if j < i { j } else { j + 1 };
            assert(s[j2].0 == x);
            if j2 < i {
                assert(s[j2].0 < s[i].0);
            } else {
                assert(s[i].0 < s[j2].0);
            }
        }
        if table(s).contains_key(x) && x != k {
            let j = choose|j: int| 0 <= j < s.len() && s[j].0 == x;
            if j < i {
                assert(u[j].0 == x);
            } else {
                assert(j != i);
                assert(u[j - 1].0 == x);
            }
        }
    }
    assert forall|x: usize| #[trigger] table(u).contains_key(x) implies table(u)[x] == table(s).remove(k)[x] by {
        let j = choose|j: int| 0 <= j < u.len() && u[j].0 == x;
        let j2 = if j < i { j } else { j + 1 };
        assert(u[j] == s[j2]);
        lemma_position(s, j2);
        lemma_position(u, j);
    }
    assert(table(u) =~= table(s).remove(k));
}

} // verus!
