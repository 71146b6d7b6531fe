use vstd::prelude::*;

verus! {

/// Number of occupied positions in `s`.
pub open spec fn count_occupied<V>(s: Seq<Option<V>>) -> nat
    decreases s.len(),
{
    if s.len() == 0 {
        0
    } else {
        count_occupied(s.drop_last()) + if s.last().is_some() {
            1nat
        } else {
            0nat
        }
    }
}

/// The set of occupied positions of `s`.
pub open spec fn occupied_indices<V>(s: Seq<Option<V>>) -> Set<int> {
    Set::new(|i: int| 0 <= i < s.len() && s[i].is_some())
}

/// The occupied `(index, value)` pairs of `s`, by ascending index.
pub open spec fn entries<V>(s: Seq<Option<V>>) -> Seq<(usize, V)>
    decreases s.len(),
{
    if s.len() == 0 {
        Seq::empty()
    } else {
        let rest = entries(s.drop_last());
        match s.last() {
            Some(v) => rest.push(((s.len() - 1) as usize, v)),
            None => rest,
        }
    }
}

/// `n` vacant positions.
pub open spec fn all_vacant<V>(n: nat) -> Seq<Option<V>> {
    Seq::new(n, |i: int| None::<V>)
}

/// The contents after storing `v` at `i`.
pub open spec fn insert_at<V>(s: Seq<Option<V>>, i: int, v: V) -> Seq<Option<V>> {
    s.update(i, Some(v))
}

/// The contents after emptying position `i`.
pub open spec fn remove_at<V>(s: Seq<Option<V>>, i: int) -> Seq<Option<V>> {
    s.update(i, None)
}

/// The contents after emptying every position.
pub open spec fn clear_all<V>(s: Seq<Option<V>>) -> Seq<Option<V>> {
    all_vacant(s.len())
}

/// Updating one position moves the count by the change at that position.
pub proof fn lemma_count_update<V>(s: Seq<Option<V>>, i: int, x: Option<V>)
    requires
        0 <= i < s.len(),
    ensures
        count_occupied(s.update(i, x)) + (if s[i].is_some() { 1int } else { 0int })
            == count_occupied(s) + (if x.is_some() { 1int } else { 0int }),
    decreases s.len(),
{
    let t = s.update(i, x);
    if i == s.len() - 1 {
        assert(t.drop_last() =~= s.drop_last());
    } else {
        lemma_count_update(s.drop_last(), i, x);
        assert(t.drop_last() =~= s.drop_last().update(i, x));
    }
}

/// No position of `all_vacant(n)` is occupied.
pub proof fn lemma_count_all_vacant<V>(n: nat)
    ensures
        count_occupied(all_vacant::<V>(n)) == 0,
    decreases n,
{
    if n > 0 {
        lemma_count_all_vacant::<V>((n - 1) as nat);
        assert(all_vacant::<V>(n).drop_last() =~= all_vacant::<V>((n - 1) as nat));
    }
}

/// The count never exceeds the length.
pub proof fn lemma_count_bound<V>(s: Seq<Option<V>>)
    ensures
        count_occupied(s) <= s.len(),
    decreases s.len(),
{
    if s.len() > 0 {
        lemma_count_bound(s.drop_last());
    }
}

/// The occupied count is the number of occupied positions.
pub proof fn lemma_count_is_cardinality<V>(s: Seq<Option<V>>)
    ensures
        occupied_indices(s).finite(),
        count_occupied(s) == occupied_indices(s).len(),
    decreases s.len(),
{
    if s.len() == 0 {
        assert(occupied_indices(s) =~= Set::<int>::empty());
    } else {
        let p = s.drop_last();
        lemma_count_is_cardinality(p);
        if s.last().is_some() {
            assert(occupied_indices(s) =~= occupied_indices(p).insert(s.len() - 1));
        } else {
            assert(occupied_indices(s) =~= occupied_indices(p));
        }
    }
}

/// After storing `v` at `i`, position `i` holds `v`.
pub proof fn lemma_insert_then_get<V>(s: Seq<Option<V>>, i: int, v: V)
    requires
        0 <= i < s.len(),
    ensures
        insert_at(s, i, v)[i] == Some(v),
{
}

/// Clearing empties every position, and clearing again changes nothing.
pub proof fn lemma_clear_idempotent<V>(s: Seq<Option<V>>)
    ensures
        count_occupied(clear_all(s)) == 0,
        clear_all(clear_all(s)) == clear_all(s),
{
    lemma_count_all_vacant::<V>(s.len());
}

/// After emptying position `i`, it holds nothing, whatever it held before.
pub proof fn lemma_remove_then_get<V>(s: Seq<Option<V>>, i: int)
    requires
        0 <= i < s.len(),
    ensures
        remove_at(s, i)[i].is_none(),
{
}

/// Storing twice at one position: the second store replaces the first value, leaves the
/// count as the first store left it, and ends as a single store of the second value would.
pub proof fn lemma_insert_overwrite<V>(s: Seq<Option<V>>, i: int, a: V, b: V)
    requires
        0 <= i < s.len(),
    ensures
        insert_at(s, i, a)[i] == Some(a),
        count_occupied(insert_at(insert_at(s, i, a), i, b)) == count_occupied(insert_at(s, i, a)),
        insert_at(insert_at(s, i, a), i, b) == insert_at(s, i, b),
{
    lemma_count_update(insert_at(s, i, a), i, Some(b));
    assert(insert_at(insert_at(s, i, a), i, b) =~= insert_at(s, i, b));
}

/// The entries are exactly the occupied positions with their values, strictly ascending by
/// index, and there are as many as the occupied count.
pub proof fn lemma_entries<V>(s: Seq<Option<V>>)
    requires
        s.len() <= usize::MAX + 1,
    ensures
        entries(s).len() == count_occupied(s),
        forall|j: int|
            0 <= j < entries(s).len() ==> {
                let (k, v) = #[trigger] entries(s)[j];
                k < s.len() && s[k as int] == Some(v)
            },
        forall|j: int, l: int|
            0 <= j < l < entries(s).len() ==> (#[trigger] entries(s)[j]).0 < (
            #[trigger] entries(s)[l]).0,
        forall|i: int|
            0 <= i < s.len() && (#[trigger] s[i]).is_some() ==> exists|j: int|
                0 <= j < entries(s).len() && #[trigger] entries(s)[j] == (i as usize, s[i].unwrap()),
    decreases s.len(),
{
    if s.len() > 0 {
        let p = s.drop_last();
        lemma_entries(p);
        let e = entries(s);
        let q = entries(p);
        assert forall|i: int| 0 <= i < s.len() && (#[trigger] s[i]).is_some() implies exists|j: int|
            0 <= j < e.len() && #[trigger] e[j] == (i as usize, s[i].unwrap()) by {
            if i < s.len() - 1 {
                assert(p[i] == s[i]);
                let j = choose|j: int| 0 <= j < q.len() && #[trigger] q[j] == (i as usize, p[i].unwrap());
                assert(e[j] == q[j]);
            } else {
                assert(e[e.len() - 1] == (i as usize, s[i].unwrap()));
            }
        }
    }
}

} // verus!
