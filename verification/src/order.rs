//! Putting things in order by a number, equals in the order that they came in.

use vstd::prelude::*;

verus! {

/// An ordered sequence with `x` put behind everything that is not larger.
pub open spec fn placed<T>(s: Seq<T>, key: spec_fn(T) -> int, x: T) -> Seq<T>
    decreases s.len(),
{
    if s.len() == 0 || key(s.last()) <= key(x) {
        s.push(x)
    } else {
        placed(s.drop_last(), key, x).push(s.last())
    }
}

/// The sequence in order: from small to large, equals as they came.
pub open spec fn ordered<T>(s: Seq<T>, key: spec_fn(T) -> int) -> Seq<T>
    decreases s.len(),
{
    if s.len() == 0 {
        Seq::empty()
    } else {
        placed(ordered(s.drop_last(), key), key, s.last())
    }
}

/// The sequence goes from small to large.
pub open spec fn ascending<T>(s: Seq<T>, key: spec_fn(T) -> int) -> bool {
    forall|i: int, j: int|
        0 <= i <= j < s.len() ==> key(#[trigger] s[i]) <= key(#[trigger] s[j])
}

/// `x` belongs at `pos`.
pub open spec fn fits_at<T>(s: Seq<T>, key: spec_fn(T) -> int, x: T, pos: int) -> bool {
    &&& 0 <= pos <= s.len()
    &&& forall|i: int| 0 <= i < pos ==> key(#[trigger] s[i]) <= key(x)
    &&& forall|i: int| pos <= i < s.len() ==> key(#[trigger] s[i]) > key(x)
}

/// What is put in its place is put where it belongs.
pub proof fn placed_where_it_fits<T>(s: Seq<T>, key: spec_fn(T) -> int, x: T, pos: int)
    requires
        fits_at(s, key, x, pos),
    ensures
        placed(s, key, x) == s.insert(pos, x),
    decreases s.len(),
{
    if pos < s.len() {
        let rest = s.drop_last();
        assert(key(s[s.len() - 1]) > key(x));
        assert(fits_at(rest, key, x, pos)) by {
            assert forall|i: int| pos <= i < rest.len() implies key(#[trigger] rest[i]) > key(x) by {
                assert(rest[i] == s[i]);
            }
            assert forall|i: int| 0 <= i < pos implies key(#[trigger] rest[i]) <= key(x) by {
                assert(rest[i] == s[i]);
            }
        }
        placed_where_it_fits(rest, key, x, pos);
        assert(placed(s, key, x) =~= s.insert(pos, x));
    } else {
        if s.len() > 0 {
            assert(key(s[s.len() - 1]) <= key(x));
        }
        assert(placed(s, key, x) =~= s.insert(pos, x));
    }
}

proof fn lemma_placed<T>(s: Seq<T>, key: spec_fn(T) -> int, x: T)
    requires
        ascending(s, key),
    ensures
        ascending(placed(s, key, x), key),
        placed(s, key, x).to_multiset() == s.to_multiset().insert(x),
        placed(s, key, x).len() == s.len() + 1,
        forall|i: int|
            0 <= i < placed(s, key, x).len() ==> key(#[trigger] placed(s, key, x)[i]) <= key(x) || (
            s.len() > 0 && key(placed(s, key, x)[i]) <= key(s.last())),
    decreases s.len(),
{
    broadcast use vstd::seq_lib::group_to_multiset_ensures;

    if s.len() == 0 {
        assert(placed(s, key, x) =~= s.push(x));
    } else if key(s.last()) <= key(x) {
        let r = placed(s, key, x);
        assert(r == s.push(x));
        assert forall|i: int, j: int| 0 <= i <= j < r.len() implies key(#[trigger] r[i]) <= key(
            #[trigger] r[j],
        ) by {
            if i < s.len() {
                assert(key(s[i]) <= key(s[s.len() - 1]));
            }
        }
    } else {
        let rest = s.drop_last();
        assert(ascending(rest, key)) by {
            assert forall|i: int, j: int| 0 <= i <= j < rest.len() implies key(#[trigger] rest[i])
                <= key(#[trigger] rest[j]) by {
                assert(rest[i] == s[i] && rest[j] == s[j]);
            }
        }
        lemma_placed(rest, key, x);
        let inner = placed(rest, key, x);
        let r = placed(s, key, x);
        assert(r == inner.push(s.last()));
        assert(s =~= rest.push(s.last()));
        assert forall|i: int| 0 <= i < inner.len() implies key(#[trigger] inner[i]) <= key(
            s.last(),
        ) by {
            if rest.len() > 0 {
                assert(rest.last() == s[s.len() - 2]);
                assert(key(s[s.len() - 2]) <= key(s[s.len() - 1]));
            }
        }
        assert forall|i: int, j: int| 0 <= i <= j < r.len() implies key(#[trigger] r[i]) <= key(
            #[trigger] r[j],
        ) by {
            if j < inner.len() {
                assert(r[i] == inner[i] && r[j] == inner[j]);
            } else if i < inner.len() {
                assert(r[i] == inner[i]);
            }
        }
        assert(r.to_multiset() =~= s.to_multiset().insert(x));
    }
}

/// Ordering yields the same things, from small to large.
pub proof fn ordering_sorts<T>(s: Seq<T>, key: spec_fn(T) -> int)
    ensures
        ascending(ordered(s, key), key),
        ordered(s, key).to_multiset() == s.to_multiset(),
        ordered(s, key).len() == s.len(),
    decreases s.len(),
{
    broadcast use vstd::seq_lib::group_to_multiset_ensures;

    if s.len() > 0 {
        ordering_sorts(s.drop_last(), key);
        lemma_placed(ordered(s.drop_last(), key), key, s.last());
        assert(s =~= s.drop_last().push(s.last()));
    } else {
        assert(s =~= Seq::empty());
    }
}

proof fn lemma_placed_among_equals<T>(s: Seq<T>, key: spec_fn(T) -> int, x: T, k: int)
    ensures
        placed(s, key, x).filter(|y: T| key(y) == k) == (if key(x) == k {
            s.filter(|y: T| key(y) == k).push(x)
        } else {
            s.filter(|y: T| key(y) == k)
        }),
    decreases s.len(),
{
    let same = |y: T| key(y) == k;
    reveal(Seq::filter);
    if s.len() == 0 || key(s.last()) <= key(x) {
        assert(s.push(x).drop_last() =~= s);
    } else {
        let inner = placed(s.drop_last(), key, x);
        lemma_placed_among_equals(s.drop_last(), key, x, k);
        assert(inner.push(s.last()).drop_last() =~= inner);
    }
}

/// Things that count the same stay in the order that they came in.
pub proof fn ordering_is_stable<T>(s: Seq<T>, key: spec_fn(T) -> int, k: int)
    ensures
        ordered(s, key).filter(|y: T| key(y) == k) == s.filter(|y: T| key(y) == k),
    decreases s.len(),
{
    reveal(Seq::filter);
    if s.len() > 0 {
        ordering_is_stable(s.drop_last(), key, k);
        lemma_placed_among_equals(ordered(s.drop_last(), key), key, s.last(), k);
    }
}

/// What a filter keeps was there before and passes the filter.
pub proof fn kept_was_there<T>(s: Seq<T>, pass: spec_fn(T) -> bool, x: T)
    requires
        s.filter(pass).contains(x),
    ensures
        s.contains(x),
        pass(x),
    decreases s.len(),
{
    reveal(Seq::filter);
    if s.len() > 0 {
        let rest = s.drop_last();
        if rest.filter(pass).contains(x) {
            kept_was_there(rest, pass, x);
            let i = choose|i: int| 0 <= i < rest.len() && rest[i] == x;
            assert(s[i] == x);
        } else {
            let kept = s.filter(pass);
            let i = choose|i: int| 0 <= i < kept.len() && kept[i] == x;
            if i < rest.filter(pass).len() {
                assert(rest.filter(pass)[i] == x);
            }
            assert(s[s.len() - 1] == x);
        }
    }
}

} // verus!
