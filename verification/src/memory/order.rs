//! Sorting by text: the order of characters' code points, position by
//! position, a prefix before what it begins.

use vstd::prelude::*;
use crate::text::{chars_of, texts};

verus! {

/// Whether `a` comes strictly before `b`.
pub open spec fn before(a: Seq<char>, b: Seq<char>) -> bool
    decreases a.len(),
{
    if b.len() == 0 {
        false
    } else if a.len() == 0 {
        true
    } else if a[0] != b[0] {
        a[0] < b[0]
    } else {
        before(a.drop_first(), b.drop_first())
    }
}

/// Whether `a` comes strictly before `b`.
pub fn comes_before(a: &str, b: &str) -> (r: bool)
    ensures
        r == before(a@, b@),
{
    let x = chars_of(a);
    let y = chars_of(b);
    let mut i: usize = 0;
    assert(a@.skip(0) == a@);
    assert(b@.skip(0) == b@);
    while i < x.len() && i < y.len()
        invariant
            x@ == a@,
            y@ == b@,
            i <= x@.len(),
            i <= y@.len(),
            before(a@, b@) == before(a@.skip(i as int), b@.skip(i as int)),
        decreases x@.len() - i,
    {
        assert(a@.skip(i as int).drop_first() == a@.skip(i + 1));
        assert(b@.skip(i as int).drop_first() == b@.skip(i + 1));
        if x[i] != y[i] {
            return x[i] < y[i];
        }
        i += 1;
    }
    i < y.len()
}

/// Nothing comes before itself, and of two texts at most one comes before the
/// other.
proof fn lemma_before_asymmetric(a: Seq<char>, b: Seq<char>)
    ensures
        before(a, b) ==> !before(b, a),
    decreases a.len(),
{
    if a.len() > 0 && b.len() > 0 && a[0] == b[0] {
        lemma_before_asymmetric(a.drop_first(), b.drop_first());
    }
}

/// Of two different texts exactly one comes before the other, and no text
/// comes before itself.
pub proof fn law_order_is_total(a: Seq<char>, b: Seq<char>)
    ensures
        a == b || before(a, b) || before(b, a),
        !(before(a, b) && before(b, a)),
        !before(a, a),
    decreases a.len(),
{
    lemma_before_asymmetric(a, b);
    lemma_before_asymmetric(a, a);
    if a.len() > 0 && b.len() > 0 && a[0] == b[0] {
        law_order_is_total(a.drop_first(), b.drop_first());
        if a.drop_first() == b.drop_first() {
            assert(a =~= seq![a[0]] + a.drop_first());
            assert(b =~= seq![b[0]] + b.drop_first());
        }
    } else if a.len() == 0 && b.len() == 0 {
        assert(a =~= b);
    }
}

/// What does not come before one text, and that one not before another, does
/// not come before the other either.
proof fn lemma_before_transitive(a: Seq<char>, b: Seq<char>, c: Seq<char>)
    requires
        !before(b, a),
        !before(c, b),
    ensures
        !before(c, a),
    decreases a.len(),
{
    if a.len() > 0 && b.len() > 0 && c.len() > 0 && a[0] == b[0] && b[0] == c[0] {
        lemma_before_transitive(a.drop_first(), b.drop_first(), c.drop_first());
    }
}

/// The first place from `from` on, in a list of positions, whose key comes
/// after the key at `k`.
pub open spec fn place(o: Seq<usize>, keys: Seq<Seq<char>>, k: int, from: int) -> int
    decreases o.len() - from,
{
    if from < 0 || from >= o.len() {
        o.len() as int
    } else if before(keys[k], keys[o[from] as int]) {
        from
    } else {
        place(o, keys, k, from + 1)
    }
}

/// The positions below `n` in the order of their keys; equal keys stay in the
/// order of their positions.
pub open spec fn order_of(keys: Seq<Seq<char>>, n: int) -> Seq<usize>
    decreases n,
{
    if n <= 0 {
        Seq::empty()
    } else {
        let o = order_of(keys, n - 1);
        o.insert(place(o, keys, n - 1, 0), (n - 1) as usize)
    }
}

proof fn lemma_place(o: Seq<usize>, keys: Seq<Seq<char>>, k: int, from: int)
    requires
        0 <= from <= o.len(),
    ensures
        from <= place(o, keys, k, from) <= o.len(),
        forall|i: int|
            from <= i < place(o, keys, k, from) ==> !before(keys[k], keys[#[trigger] o[i] as int]),
        place(o, keys, k, from) < o.len() ==> before(
            keys[k],
            keys[o[place(o, keys, k, from)] as int],
        ),
    decreases o.len() - from,
{
    if from < o.len() && !before(keys[k], keys[o[from] as int]) {
        lemma_place(o, keys, k, from + 1);
    }
}

/// The positions in the order of their keys.
pub fn sorted_positions(keys: &Vec<String>) -> (r: Vec<usize>)
    ensures
        r@ == order_of(texts(keys@), keys@.len() as int),
        r@.len() == keys@.len(),
        forall|i: int| 0 <= i < r@.len() ==> #[trigger] r@[i] < keys@.len(),
{
    let ghost all = texts(keys@);
    let total: usize = keys.len();
    let mut o: Vec<usize> = Vec::new();
    let mut n: usize = 0;
    while n < total
        invariant
            total == keys@.len(),
            n <= total,
            all == texts(keys@),
            o@ == order_of(all, n as int),
            o@.len() == n,
            forall|i: int| 0 <= i < o@.len() ==> #[trigger] o@[i] < n,
        decreases total - n,
    {
        let ghost before_o = o@;
        let mut p: usize = 0;
        while p < o.len() && !comes_before(keys[n].as_str(), keys[o[p]].as_str())
            invariant
                n < keys@.len(),
                all == texts(keys@),
                p <= o@.len(),
                forall|i: int| 0 <= i < o@.len() ==> #[trigger] o@[i] < n,
                place(o@, all, n as int, 0) == place(o@, all, n as int, p as int),
            decreases o@.len() - p,
        {
            p += 1;
        }
        assert(p == place(o@, all, n as int, 0));
        o.insert(p, n);
        n += 1;
        assert(o@ == before_o.insert(p as int, (n - 1) as usize));
        assert forall|i: int| 0 <= i < o@.len() implies #[trigger] o@[i] < n by {
            if i < p {
                assert(o@[i] == before_o[i]);
            } else if i > p {
                assert(o@[i] == before_o[i - 1]);
            }
        }
    }
    o
}

/// The list in the order of its keys.
pub open spec fn in_order<A>(items: Seq<A>, keys: Seq<Seq<char>>) -> Seq<A> {
    let o = order_of(keys, keys.len() as int);
    Seq::new(o.len(), |i: int| items[o[i] as int])
}

/// Sorting puts keys in order, keeps equal keys in their order, and neither
/// loses nor doubles a position.
pub proof fn law_sorting(keys: Seq<Seq<char>>, n: int)
    requires
        0 <= n <= keys.len(),
        keys.len() <= usize::MAX,
    ensures
        order_of(keys, n).len() == n,
        forall|i: int| 0 <= i < n ==> #[trigger] order_of(keys, n)[i] < n,
        forall|p: int| 0 <= p < n ==> order_of(keys, n).contains(#[trigger] (p as usize)),
        forall|i: int, j: int|
            0 <= i < j < n ==> order_of(keys, n)[i] != order_of(keys, n)[j],
        forall|i: int, j: int|
            0 <= i < j < n ==> !before(
                keys[order_of(keys, n)[j] as int],
                keys[order_of(keys, n)[i] as int],
            ),
        forall|i: int, j: int|
            0 <= i < j < n && keys[order_of(keys, n)[i] as int] == keys[order_of(
                keys,
                n,
            )[j] as int] ==> order_of(keys, n)[i] < order_of(keys, n)[j],
    decreases n,
{
    if n > 0 {
        law_sorting(keys, n - 1);
        let o = order_of(keys, n - 1);
        let k = n - 1;
        let p = place(o, keys, k, 0);
        lemma_place(o, keys, k, 0);
        let r = order_of(keys, n);
        assert(r == o.insert(p, k as usize));
        assert(r.len() == n);
        assert forall|q: int| 0 <= q < n implies r.contains(#[trigger] (q as usize)) by {
            if q == k {
                assert(r[p] == k as usize);
            } else {
                assert(o.contains(q as usize));
                let i = o.index_of(q as usize);
                if i < p {
                    assert(r[i] == o[i]);
                } else {
                    assert(r[i + 1] == o[i]);
                }
            }
        }
        assert forall|i: int| 0 <= i < n implies #[trigger] r[i] < n by {
            if i < p {
                assert(r[i] == o[i]);
            } else if i > p {
                assert(r[i] == o[i - 1]);
            }
        }
        assert forall|i: int, j: int| 0 <= i < j < n implies r[i] != r[j] && !before(
            keys[r[j] as int],
            keys[r[i] as int],
        ) && (keys[r[i] as int] == keys[r[j] as int] ==> r[i] < r[j]) by {
            let a = if i < p {
                i
            } else {
                i - 1
            };
            let b = if j < p {
                j
            } else {
                j - 1
            };
            if i < p {
                assert(r[i] == o[i]);
            } else if i > p {
                assert(r[i] == o[i - 1]);
            }
            if j < p {
                assert(r[j] == o[j]);
            } else if j > p {
                assert(r[j] == o[j - 1]);
            }
            if i == p {
                // The new key comes before the key at `p`, and that one is not
                // after any later key.
                assert(before(keys[k], keys[o[p] as int]));
                lemma_before_asymmetric(keys[k], keys[o[p] as int]);
                if b > p {
                    assert(!before(keys[o[b] as int], keys[o[p] as int]));
                    lemma_before_transitive(keys[k], keys[o[p] as int], keys[o[b] as int]);
                }
                if keys[k] == keys[o[b] as int] {
                    assert(!before(keys[k], keys[o[p] as int]));
                    assert(false);
                }
            } else if j == p {
                assert(!before(keys[k], keys[o[i] as int]));
            } else {
                assert(!before(keys[o[b] as int], keys[o[a] as int]));
            }
        }
    }
}

/// The first character in which two texts differ decides their order, and a
/// text comes before every longer one that begins with it.
pub proof fn law_the_first_difference_decides(
    same: Seq<char>,
    c: char,
    a: Seq<char>,
    d: char,
    b: Seq<char>,
)
    requires
        c != d,
    ensures
        before(same + seq![c] + a, same + seq![d] + b) <==> c < d,
        before(same, same + seq![d] + b),
        !before(same + seq![d] + b, same),
    decreases same.len(),
{
    let x = same + seq![c] + a;
    let y = same + seq![d] + b;
    if same.len() > 0 {
        let rest = same.drop_first();
        law_the_first_difference_decides(rest, c, a, d, b);
        assert(x.drop_first() =~= rest + seq![c] + a);
        assert(y.drop_first() =~= rest + seq![d] + b);
        assert(x[0] == same[0] && y[0] == same[0]);
    } else {
        assert(x[0] == c && y[0] == d);
    }
}

} // verus!
