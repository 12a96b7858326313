//! Stable ordering of named items by name.
use vstd::prelude::*;
use vstd::seq_lib::*;

use crate::text::{lemma_seq_lt_total, lemma_seq_lt_transitive, seq_lt, str_lt};

verus! {

/// An item that carries a name.
pub trait Named {
    spec fn name_view(&self) -> Seq<char>;

    fn name_ref(&self) -> (r: &str)
        ensures
            r@ == self.name_view(),
    ;
}

/// `x` placed into `s` before the first item whose name sorts strictly after
/// the name of `x`.
pub open spec fn insert_by_name<T: Named>(s: Seq<T>, x: T) -> Seq<T>
    decreases s.len(),
{
    if s.len() == 0 {
        seq![x]
    } else if seq_lt(x.name_view(), s[0].name_view()) {
        seq![x] + s
    } else {
        seq![s[0]] + insert_by_name(s.drop_first(), x)
    }
}

/// `s` sorted by name; items with equal names keep their order.
pub open spec fn sort_by_name_spec<T: Named>(s: Seq<T>) -> Seq<T>
    decreases s.len(),
{
    if s.len() == 0 {
        Seq::<T>::empty()
    } else {
        insert_by_name(sort_by_name_spec(s.drop_last()), s.last())
    }
}

/// No item's name sorts strictly before the name of an item ahead of it.
pub open spec fn sorted_by_name<T: Named>(s: Seq<T>) -> bool {
    forall|i: int, j: int| 0 <= i < j < s.len() ==> !seq_lt(#[trigger] s[j].name_view(), #[trigger] s[i].name_view())
}

proof fn lemma_insert_at<T: Named>(s: Seq<T>, x: T, p: int)
    requires
        0 <= p <= s.len(),
        forall|k: int| 0 <= k < p ==> !seq_lt(x.name_view(), #[trigger] s[k].name_view()),
        p < s.len() ==> seq_lt(x.name_view(), s[p].name_view()),
    ensures
        s.insert(p, x) == insert_by_name(s, x),
    decreases s.len(),
{
    if s.len() == 0 {
        assert(s.insert(p, x) =~= seq![x]);
    } else if p == 0 {
        assert(s.insert(p, x) =~= seq![x] + s);
    } else {
        let t = s.drop_first();
        assert forall|k: int| 0 <= k < p - 1 implies !seq_lt(x.name_view(), #[trigger] t[k].name_view()) by {
            assert(t[k] == s[k + 1]);
        }
        lemma_insert_at(t, x, p - 1);
        assert(s.insert(p, x) =~= seq![s[0]] + t.insert(p - 1, x));
    }
}

proof fn lemma_insert_keeps_items<T: Named>(s: Seq<T>, x: T)
    ensures
        insert_by_name(s, x).to_multiset() == s.to_multiset().insert(x),
        insert_by_name(s, x).len() == s.len() + 1,
    decreases s.len(),
{
    broadcast use group_to_multiset_ensures;
    if s.len() == 0 {
        assert(seq![x] =~= Seq::<T>::empty().push(x));
    } else if seq_lt(x.name_view(), s[0].name_view()) {
        lemma_multiset_commutative(seq![x], s);
        assert(seq![x] =~= Seq::<T>::empty().push(x));
    } else {
        lemma_insert_keeps_items(s.drop_first(), x);
        lemma_multiset_commutative(seq![s[0]], insert_by_name(s.drop_first(), x));
        lemma_multiset_commutative(seq![s[0]], s.drop_first());
        assert(seq![s[0]] + s.drop_first() =~= s);
        assert(seq![s[0]] =~= Seq::<T>::empty().push(s[0]));
    }
}

proof fn lemma_insert_sorted<T: Named>(s: Seq<T>, x: T)
    requires
        sorted_by_name(s),
    ensures
        sorted_by_name(insert_by_name(s, x)),
    decreases s.len(),
{
    if s.len() == 0 {
    } else if seq_lt(x.name_view(), s[0].name_view()) {
        let r = seq![x] + s;
        assert forall|i: int, j: int| 0 <= i < j < r.len() implies !seq_lt(#[trigger] r[j].name_view(), #[trigger] r[i].name_view()) by {
            if i == 0 {
                if j > 1 {
                    lemma_seq_lt_total(s[0].name_view(), s[j - 1].name_view());
                    if seq_lt(s[0].name_view(), s[j - 1].name_view()) {
                        lemma_seq_lt_transitive(x.name_view(), s[0].name_view(), s[j - 1].name_view());
                    }
                }
                lemma_seq_lt_total(x.name_view(), r[j].name_view());
            }
        }
    } else {
        let t = s.drop_first();
        assert(sorted_by_name(t)) by {
            assert forall|i: int, j: int| 0 <= i < j < t.len() implies !seq_lt(#[trigger] t[j].name_view(), #[trigger] t[i].name_view()) by {
                assert(t[i] == s[i + 1] && t[j] == s[j + 1]);
            }
        }
        lemma_insert_sorted(t, x);
        lemma_insert_keeps_items(t, x);
        let it = insert_by_name(t, x);
        let r = seq![s[0]] + it;
        assert forall|k: int| 0 <= k < it.len() implies !seq_lt(#[trigger] it[k].name_view(), s[0].name_view()) by {
            assert(it.to_multiset().count(it[k]) > 0) by {
                broadcast use group_to_multiset_ensures;
            }
            assert(t.to_multiset().insert(x).count(it[k]) > 0);
            if it[k] == x {
            } else {
                broadcast use group_to_multiset_ensures;
                assert(t.to_multiset().count(it[k]) > 0);
                assert(t.contains(it[k]));
                let m = choose|m: int| 0 <= m < t.len() && t[m] == it[k];
                assert(s[m + 1] == it[k]);
            }
        }
        assert forall|i: int, j: int| 0 <= i < j < r.len() implies !seq_lt(#[trigger] r[j].name_view(), #[trigger] r[i].name_view()) by {
            if i == 0 {
                assert(r[j] == it[j - 1]);
            } else {
                assert(r[i] == it[i - 1] && r[j] == it[j - 1]);
            }
        }
    }
}

/// The stable sort by name keeps every item, once, and orders the names.
pub proof fn law_sort_by_name<T: Named>(s: Seq<T>)
    ensures
        sorted_by_name(sort_by_name_spec(s)),
        sort_by_name_spec(s).to_multiset() == s.to_multiset(),
        sort_by_name_spec(s).len() == s.len(),
    decreases s.len(),
{
    broadcast use group_to_multiset_ensures;
    if s.len() > 0 {
        law_sort_by_name(s.drop_last());
        lemma_insert_sorted(sort_by_name_spec(s.drop_last()), s.last());
        lemma_insert_keeps_items(sort_by_name_spec(s.drop_last()), s.last());
        assert(s.drop_last().push(s.last()) =~= s);
    }
}

/// Sorts by name, keeping the order of items with equal names (as a stable
/// `sort_by` on the names does).
pub fn sort_by_name<T: Named>(v: Vec<T>) -> (r: Vec<T>)
    ensures
        r@ == sort_by_name_spec(v@),
{
    let mut v = v;
    let ghost orig = v@;
    let n = v.len();
    let mut r: Vec<T> = Vec::new();
    let mut i: usize = 0;
    proof {
        assert(orig.take(0) =~= Seq::<T>::empty());
        assert(orig.skip(0) =~= orig);
    }
    while i < n
        invariant
            n == orig.len(),
            i <= n,
            v@ == orig.skip(i as int),
            r@ == sort_by_name_spec(orig.take(i as int)),
        decreases n - i,
    {
        let x = v.remove(0);
        let mut p: usize = 0;
        while p < r.len() && !str_lt(x.name_ref(), r[p].name_ref())
            invariant
                p <= r.len(),
                forall|k: int| 0 <= k < p ==> !seq_lt(x.name_view(), #[trigger] r@[k].name_view()),
            decreases r.len() - p,
        {
            p = p + 1;
        }
        proof {
            lemma_insert_at(r@, x, p as int);
            assert(orig.take(i + 1).drop_last() =~= orig.take(i as int));
            assert(orig.take(i + 1).last() == x);
            assert(v@ =~= orig.skip(i + 1));
        }
        r.insert(p, x);
        i = i + 1;
    }
    proof {
        assert(orig.take(n as int) =~= orig);
    }
    r
}

/// `x` placed into `s` before the first index whose key is strictly greater.
pub open spec fn insert_index(s: Seq<usize>, x: usize, keys: Seq<i64>) -> Seq<usize>
    decreases s.len(),
{
    if s.len() == 0 {
        seq![x]
    } else if keys[x as int] < keys[s[0] as int] {
        seq![x] + s
    } else {
        seq![s[0]] + insert_index(s.drop_first(), x, keys)
    }
}

/// The indices `0..n` ordered by `keys`; equal keys keep index order.
pub open spec fn sort_indices_spec(n: nat, keys: Seq<i64>) -> Seq<usize>
    decreases n,
{
    if n == 0 {
        Seq::<usize>::empty()
    } else {
        insert_index(sort_indices_spec((n - 1) as nat, keys), (n - 1) as usize, keys)
    }
}

/// The indices are ordered by key, and equal keys keep index order.
pub open spec fn sorted_by_key(s: Seq<usize>, keys: Seq<i64>) -> bool {
    forall|i: int, j: int| 0 <= i < j < s.len() ==> {
        ||| keys[#[trigger] s[i] as int] < keys[#[trigger] s[j] as int]
        ||| (keys[s[i] as int] == keys[s[j] as int] && s[i] < s[j])
    }
}

proof fn lemma_insert_index_at(s: Seq<usize>, x: usize, keys: Seq<i64>, p: int)
    requires
        0 <= p <= s.len(),
        forall|k: int| 0 <= k < p ==> !(keys[x as int] < keys[#[trigger] s[k] as int]),
        p < s.len() ==> keys[x as int] < keys[s[p] as int],
    ensures
        s.insert(p, x) == insert_index(s, x, keys),
    decreases s.len(),
{
    if s.len() == 0 {
        assert(s.insert(p, x) =~= seq![x]);
    } else if p == 0 {
        assert(s.insert(p, x) =~= seq![x] + s);
    } else {
        let t = s.drop_first();
        assert forall|k: int| 0 <= k < p - 1 implies !(keys[x as int] < keys[#[trigger] t[k] as int]) by {
            assert(t[k] == s[k + 1]);
        }
        lemma_insert_index_at(t, x, keys, p - 1);
        assert(s.insert(p, x) =~= seq![s[0]] + t.insert(p - 1, x));
    }
}

proof fn lemma_insert_index_props(s: Seq<usize>, x: usize, keys: Seq<i64>)
    requires
        sorted_by_key(s, keys),
        forall|k: int| 0 <= k < s.len() ==> #[trigger] s[k] < x,
    ensures
        sorted_by_key(insert_index(s, x, keys), keys),
        insert_index(s, x, keys).len() == s.len() + 1,
        forall|v: usize| #[trigger] insert_index(s, x, keys).contains(v) <==> (v == x || s.contains(v)),
    decreases s.len(),
{
    let r = insert_index(s, x, keys);
    if s.len() == 0 {
        assert forall|v: usize| #[trigger] r.contains(v) <==> (v == x || s.contains(v)) by {
            if r.contains(v) {
                assert(r[0] == x);
            }
        }
    } else if keys[x as int] < keys[s[0] as int] {
        assert forall|i: int, j: int| 0 <= i < j < r.len() implies {
            ||| keys[#[trigger] r[i] as int] < keys[#[trigger] r[j] as int]
            ||| (keys[r[i] as int] == keys[r[j] as int] && r[i] < r[j])
        } by {
            if i == 0 {
                assert(r[j] == s[j - 1]);
                if j > 1 {
                    assert(keys[s[0] as int] <= keys[s[j - 1] as int]);
                }
            } else {
                assert(r[i] == s[i - 1] && r[j] == s[j - 1]);
            }
        }
        assert forall|v: usize| #[trigger] r.contains(v) <==> (v == x || s.contains(v)) by {
            if r.contains(v) {
                let k = choose|k: int| 0 <= k < r.len() && r[k] == v;
                if k > 0 {
                    assert(s[k - 1] == v);
                }
            }
            if s.contains(v) {
                let k = choose|k: int| 0 <= k < s.len() && s[k] == v;
                assert(r[k + 1] == v);
            }
            if v == x {
                assert(r[0] == x);
            }
        }
    } else {
        let t = s.drop_first();
        assert(sorted_by_key(t, keys)) by {
            assert forall|i: int, j: int| 0 <= i < j < t.len() implies {
                ||| keys[#[trigger] t[i] as int] < keys[#[trigger] t[j] as int]
                ||| (keys[t[i] as int] == keys[t[j] as int] && t[i] < t[j])
            } by {
                assert(t[i] == s[i + 1] && t[j] == s[j + 1]);
            }
        }
        assert forall|k: int| 0 <= k < t.len() implies #[trigger] t[k] < x by {
            assert(t[k] == s[k + 1]);
        }
        lemma_insert_index_props(t, x, keys);
        let it = insert_index(t, x, keys);
        assert(r == seq![s[0]] + it);
        assert forall|k: int| 0 <= k < it.len() implies {
            ||| keys[s[0] as int] < keys[#[trigger] it[k] as int]
            ||| (keys[s[0] as int] == keys[it[k] as int] && s[0] < it[k])
        } by {
            assert(it.contains(it[k]));
            if it[k] == x {
            } else {
                assert(t.contains(it[k]));
                let m = choose|m: int| 0 <= m < t.len() && t[m] == it[k];
                assert(s[m + 1] == it[k]);
            }
        }
        assert forall|i: int, j: int| 0 <= i < j < r.len() implies {
            ||| keys[#[trigger] r[i] as int] < keys[#[trigger] r[j] as int]
            ||| (keys[r[i] as int] == keys[r[j] as int] && r[i] < r[j])
        } by {
            if i == 0 {
                assert(r[j] == it[j - 1]);
            } else {
                assert(r[i] == it[i - 1] && r[j] == it[j - 1]);
            }
        }
        assert forall|v: usize| #[trigger] r.contains(v) <==> (v == x || s.contains(v)) by {
            if r.contains(v) {
                let k = choose|k: int| 0 <= k < r.len() && r[k] == v;
                if k > 0 {
                    assert(it[k - 1] == v);
                    assert(it.contains(v));
                    if v != x {
                        assert(t.contains(v));
                        let m = choose|m: int| 0 <= m < t.len() && t[m] == v;
                        assert(s[m + 1] == v);
                    }
                } else {
                    assert(s[0] == v);
                }
            }
            if s.contains(v) {
                let k = choose|k: int| 0 <= k < s.len() && s[k] == v;
                if k == 0 {
                    assert(r[0] == v);
                } else {
                    assert(t[k - 1] == v);
                    assert(it.contains(v));
                    let m = choose|m: int| 0 <= m < it.len() && it[m] == v;
                    assert(r[m + 1] == v);
                }
            }
            if v == x {
                assert(it.contains(x));
                let m = choose|m: int| 0 <= m < it.len() && it[m] == x;
                assert(r[m + 1] == x);
            }
        }
    }
}

/// The stable index sort orders by key and lists each of `0..n` exactly once.
pub proof fn law_sort_indices(n: nat, keys: Seq<i64>)
    requires
        n <= usize::MAX,
    ensures
        sorted_by_key(sort_indices_spec(n, keys), keys),
        sort_indices_spec(n, keys).len() == n,
        forall|v: usize| #[trigger] sort_indices_spec(n, keys).contains(v) <==> v < n,
    decreases n,
{
    if n > 0 {
        law_sort_indices((n - 1) as nat, keys);
        let s = sort_indices_spec((n - 1) as nat, keys);
        assert forall|k: int| 0 <= k < s.len() implies #[trigger] s[k] < (n - 1) as usize by {
            assert(s.contains(s[k]));
        }
        lemma_insert_index_props(s, (n - 1) as usize, keys);
    }
}

/// The indices of `keys` ordered by key; equal keys keep their index order
/// (a stable sort by key).
pub fn sort_indices_by_key(keys: &Vec<i64>) -> (r: Vec<usize>)
    ensures
        r@ == sort_indices_spec(keys.len() as nat, keys@),
{
    let n = keys.len();
    let mut r: Vec<usize> = Vec::new();
    for x in 0..n
        invariant
            n == keys.len(),
            r@ == sort_indices_spec(x as nat, keys@),
    {
        proof {
            law_sort_indices(x as nat, keys@);
            assert forall|k: int| 0 <= k < r.len() implies #[trigger] r@[k] < x by {
                assert(r@.contains(r@[k]));
            }
        }
        let mut p: usize = 0;
        while p < r.len() && !(keys[x] < keys[r[p]])
            invariant
                p <= r.len(),
                x < n,
                n == keys.len(),
                r@ == sort_indices_spec(x as nat, keys@),
                forall|k: int| 0 <= k < r.len() ==> #[trigger] r@[k] < x,
                forall|v: usize| #[trigger] r@.contains(v) <==> v < x,
                forall|k: int| 0 <= k < p ==> !(keys@[x as int] < keys@[#[trigger] r@[k] as int]),
            decreases r.len() - p,
        {
            p = p + 1;
        }
        proof {
            lemma_insert_index_at(r@, x, keys@, p as int);
        }
        r.insert(p, x);
    }
    r
}

} // verus!
