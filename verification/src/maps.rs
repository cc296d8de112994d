//! Walking an ordered map in key order.

use std::collections::BTreeMap;
use vstd::prelude::*;

verus! {

broadcast use vstd::laws_cmp::group_laws_cmp;

/// Whether `keys` lists `dom` in ascending order, each member once.
pub open spec fn lists<K>(keys: Seq<K>, dom: Set<K>) -> bool {
    &&& vstd::std_specs::btree::increasing_seq(keys)
    &&& forall|k: K| keys.contains(k) <==> #[trigger] dom.contains(k)
}

/// The members of `dom`, ascending.
pub open spec fn listed(dom: Set<i32>) -> Seq<i32> {
    choose|keys: Seq<i32>| lists(keys, dom)
}

/// The map's keys, ascending.
pub fn keys_of<K: Ord + Copy, V>(m: &BTreeMap<K, V>) -> (keys: Vec<K>)
    requires
        vstd::laws_cmp::obeys_cmp::<K>(),
    ensures
        lists(keys@, m@.dom()),
{
    let mut keys: Vec<K> = Vec::new();
    assert(vstd::laws_cmp::obeys_cmp::<&K>());
    let ghost all = vstd::std_specs::iter::IteratorSpec::remaining(&m.keys());
    for k in it: m.keys()
        invariant
            it.seq() == all,
            keys@.len() == it.index(),
            forall|i: int| 0 <= i < keys@.len() ==> keys@[i] == *all[i],
    {
        keys.push(*k);
    }
    proof {
        assert(vstd::std_specs::btree::increasing_seq(all));
        assert(all.unref().to_set() == m@.dom());
        assert(keys@ == all.unref());
        assert forall|k: K| keys@.contains(k) <==> #[trigger] m@.dom().contains(k) by {
            assert(keys@.to_set().contains(k) <==> keys@.contains(k));
        }
        assert forall|i: int, j: int| 0 <= i < j < keys@.len() implies vstd::std_specs::cmp::OrdSpec::cmp_spec(
            &keys@[i],
            &keys@[j],
        ) is Less by {
            assert(vstd::std_specs::cmp::OrdSpec::cmp_spec(&all[i], &all[j]) is Less);
        }
    }
    keys
}

/// A set of integers has one ascending listing.
pub proof fn listing_is_unique(a: Seq<i32>, b: Seq<i32>, dom: Set<i32>)
    requires
        lists(a, dom),
        lists(b, dom),
    ensures
        a == b,
    decreases a.len(),
{
    assert(vstd::laws_cmp::obeys_cmp::<i32>());
    ascending(a);
    ascending(b);
    if a.len() == 0 {
        if b.len() > 0 {
            assert(b.contains(b[0]));
            assert(dom.contains(b[0]));
        }
    } else {
        assert(a.contains(a.last()));
        assert(dom.contains(a.last()));
        assert(b.contains(a.last()));
        assert(b.len() > 0);
        assert(b.contains(b.last()));
        assert(dom.contains(b.last()));
        let i = choose|i: int| 0 <= i < a.len() && a[i] == b.last();
        let j = choose|j: int| 0 <= j < b.len() && b[j] == a.last();
        assert(a.last() == b.last());
        let da = a.drop_last();
        let db = b.drop_last();
        let rest = dom.remove(a.last());
        assert forall|i: int, j: int| 0 <= i < j < da.len() implies vstd::std_specs::cmp::OrdSpec::cmp_spec(
            &da[i],
            &da[j],
        ) is Less by {
            assert(vstd::std_specs::cmp::OrdSpec::cmp_spec(&a[i], &a[j]) is Less);
        }
        assert forall|i: int, j: int| 0 <= i < j < db.len() implies vstd::std_specs::cmp::OrdSpec::cmp_spec(
            &db[i],
            &db[j],
        ) is Less by {
            assert(vstd::std_specs::cmp::OrdSpec::cmp_spec(&b[i], &b[j]) is Less);
        }
        assert forall|k: i32| da.contains(k) <==> #[trigger] rest.contains(k) by {
            if da.contains(k) {
                let n = choose|n: int| 0 <= n < da.len() && da[n] == k;
                assert(a[n] == k);
                assert(dom.contains(k));
            }
            if rest.contains(k) {
                assert(dom.contains(k));
                let n = choose|n: int| 0 <= n < a.len() && a[n] == k;
                assert(da[n] == k);
            }
        }
        assert forall|k: i32| db.contains(k) <==> #[trigger] rest.contains(k) by {
            if db.contains(k) {
                let n = choose|n: int| 0 <= n < db.len() && db[n] == k;
                assert(b[n] == k);
                assert(dom.contains(k));
            }
            if rest.contains(k) {
                assert(dom.contains(k));
                let n = choose|n: int| 0 <= n < b.len() && b[n] == k;
                assert(db[n] == k);
            }
        }
        listing_is_unique(da, db, rest);
        assert(a == da.push(a.last()));
        assert(b == db.push(b.last()));
    }
}

/// What ascending means for integers.
pub proof fn ascending(keys: Seq<i32>)
    requires
        vstd::std_specs::btree::increasing_seq(keys),
    ensures
        forall|i: int, j: int| 0 <= i < j < keys.len() ==> keys[i] < keys[j],
{
    assert(vstd::laws_cmp::obeys_cmp::<i32>());
    assert forall|i: int, j: int| 0 <= i < j < keys.len() implies keys[i] < keys[j] by {
        assert(vstd::std_specs::cmp::OrdSpec::cmp_spec(&keys[i], &keys[j]) is Less);
    }
}

/// What ascending means for wider integers.
pub proof fn ascending_i64(keys: Seq<i64>)
    requires
        vstd::std_specs::btree::increasing_seq(keys),
    ensures
        forall|i: int, j: int| 0 <= i < j < keys.len() ==> keys[i] < keys[j],
{
    assert(vstd::laws_cmp::obeys_cmp::<i64>());
    assert forall|i: int, j: int| 0 <= i < j < keys.len() implies keys[i] < keys[j] by {
        assert(vstd::std_specs::cmp::OrdSpec::cmp_spec(&keys[i], &keys[j]) is Less);
    }
}

proof fn greatest(dom: Set<i32>) -> (top: i32)
    requires
        dom.finite(),
        dom.len() > 0,
    ensures
        dom.contains(top),
        forall|k: i32| #[trigger] dom.contains(k) ==> k <= top,
    decreases dom.len(),
{
    let a = dom.choose();
    let rest = dom.remove(a);
    if rest.len() == 0 {
        assert forall|k: i32| #[trigger] dom.contains(k) implies k <= a by {
            if k != a {
                assert(rest.contains(k));
            }
        }
        a
    } else {
        let b = greatest(rest);
        assert forall|k: i32| #[trigger] dom.contains(k) implies k <= if a < b {
            b
        } else {
            a
        } by {
            if k != a {
                assert(rest.contains(k));
            }
        }
        if a < b {
            b
        } else {
            a
        }
    }
}

proof fn listing(dom: Set<i32>) -> (keys: Seq<i32>)
    requires
        dom.finite(),
    ensures
        lists(keys, dom),
    decreases dom.len(),
{
    assert(vstd::laws_cmp::obeys_cmp::<i32>());
    if dom.len() == 0 {
        let keys = Seq::<i32>::empty();
        assert(vstd::std_specs::btree::increasing_seq(keys));
        assert forall|k: i32| keys.contains(k) <==> #[trigger] dom.contains(k) by {
            assert(dom =~= Set::<i32>::empty());
        }
        keys
    } else {
        let top = greatest(dom);
        let rest = dom.remove(top);
        let before = listing(rest);
        let keys = before.push(top);
        assert forall|i: int, j: int| 0 <= i < j < keys.len() implies vstd::std_specs::cmp::OrdSpec::cmp_spec(
            &keys[i],
            &keys[j],
        ) is Less by {
            if j < before.len() {
                assert(vstd::std_specs::cmp::OrdSpec::cmp_spec(&before[i], &before[j]) is Less);
            } else {
                assert(before.contains(before[i]));
                assert(rest.contains(before[i]));
                assert(dom.contains(keys[i]));
                assert(keys[i] < keys[j]);
            }
        }
        assert forall|k: i32| keys.contains(k) <==> #[trigger] dom.contains(k) by {
            if keys.contains(k) {
                let i = choose|i: int| 0 <= i < keys.len() && keys[i] == k;
                if i < before.len() {
                    assert(before[i] == k);
                    assert(before.contains(k));
                    assert(rest.contains(k));
                }
            }
            if dom.contains(k) {
                if k == top {
                    assert(keys[keys.len() - 1] == k);
                } else {
                    assert(rest.contains(k));
                    let i = choose|i: int| 0 <= i < before.len() && before[i] == k;
                    assert(keys[i] == k);
                }
            }
        }
        keys
    }
}

/// Every finite set of integers has its ascending listing.
pub proof fn every_set_can_be_listed(dom: Set<i32>)
    requires
        dom.finite(),
    ensures
        lists(listed(dom), dom),
{
    let keys = listing(dom);
    assert(lists(keys, dom));
}

/// A filter keeps what it is for, and nothing else.
pub proof fn what_a_filter_keeps<A>(s: Seq<A>, p: spec_fn(A) -> bool, x: A)
    ensures
        s.filter(p).contains(x) <==> s.contains(x) && p(x),
{
    let kept = s.filter(p);
    if s.contains(x) && p(x) {
        let i = choose|i: int| 0 <= i < s.len() && s[i] == x;
        s.lemma_filter_contains(p, i);
    }
    if kept.contains(x) {
        let i = choose|i: int| 0 <= i < kept.len() && kept[i] == x;
        s.lemma_filter_pred(p, i);
        s.lemma_filter_contains_rev(p, x);
    }
}

/// What two sequences together list is what one of them does.
pub proof fn listed_by_either<A>(a: Seq<A>, b: Seq<A>, x: A)
    ensures
        (a + b).contains(x) <==> a.contains(x) || b.contains(x),
{
    let all = a + b;
    if a.contains(x) {
        let i = choose|i: int| 0 <= i < a.len() && a[i] == x;
        assert(all[i] == x);
    }
    if b.contains(x) {
        let i = choose|i: int| 0 <= i < b.len() && b[i] == x;
        assert(all[a.len() + i] == x);
    }
    if all.contains(x) {
        let i = choose|i: int| 0 <= i < all.len() && all[i] == x;
        if i < a.len() {
            assert(a[i] == x);
        } else {
            assert(b[i - a.len()] == x);
        }
    }
}

/// What the pieces of a flattened sequence list, the whole does, and the other
/// way round.
pub proof fn listed_by_a_piece<A, B>(s: Seq<A>, f: spec_fn(A) -> Seq<B>, x: B)
    ensures
        s.flat_map(f).contains(x) <==> exists|i: int|
            0 <= i < s.len() && f(#[trigger] s[i]).contains(x),
    decreases s.len(),
{
    if s.len() == 0 {
        assert(s.flat_map(f) =~= Seq::<B>::empty()) by {
            reveal(Seq::flatten);
        }
    } else {
        let d = s.drop_last();
        listed_by_a_piece(d, f, x);
        assert(s =~= d.push(s.last()));
        d.lemma_flat_map_push(f, s.last());
        listed_by_either(d.flat_map(f), f(s.last()), x);
        if d.flat_map(f).contains(x) {
            let i = choose|i: int| 0 <= i < d.len() && f(#[trigger] d[i]).contains(x);
            assert(s[i] == d[i]);
        }
        if f(s.last()).contains(x) {
            assert(f(s[s.len() - 1]).contains(x));
        }
        if exists|i: int| 0 <= i < s.len() && f(#[trigger] s[i]).contains(x) {
            let i = choose|i: int| 0 <= i < s.len() && f(#[trigger] s[i]).contains(x);
            if i < d.len() {
                assert(d[i] == s[i]);
            }
        }
    }
}

} // verus!
