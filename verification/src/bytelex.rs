//! Lexicographic (byte-wise ascending) order on byte strings, and sorted
//! insertion on vectors of byte strings. Header enumeration sorts names and
//! values in this order.

use vstd::prelude::*;
use vstd::relations::{sorted_by, total_ordering};

verus! {

/// Byte-wise ascending order: `a` is at most `b` when `a` is a prefix of `b`
/// or the first differing byte of `a` is smaller.
pub open spec fn lex_leq(a: Seq<u8>, b: Seq<u8>) -> bool
    decreases a.len(),
{
    if a.len() == 0 {
        true
    } else if b.len() == 0 {
        false
    } else if a[0] < b[0] {
        true
    } else if a[0] > b[0] {
        false
    } else {
        lex_leq(a.drop_first(), b.drop_first())
    }
}

/// Strict byte-wise ascending order.
pub open spec fn lex_lt(a: Seq<u8>, b: Seq<u8>) -> bool {
    lex_leq(a, b) && a != b
}

/// The order is total: two byte strings always compare one way or the other.
pub proof fn lemma_lex_total(a: Seq<u8>, b: Seq<u8>)
    ensures
        lex_leq(a, b) || lex_leq(b, a),
    decreases a.len(),
{
    if a.len() != 0 && b.len() != 0 && a[0] == b[0] {
        lemma_lex_total(a.drop_first(), b.drop_first());
    }
}

/// The order is antisymmetric: mutual order means equality.
pub proof fn lemma_lex_antisymmetric(a: Seq<u8>, b: Seq<u8>)
    requires
        lex_leq(a, b),
        lex_leq(b, a),
    ensures
        a == b,
    decreases a.len(),
{
    if a.len() != 0 && b.len() != 0 && a[0] == b[0] {
        lemma_lex_antisymmetric(a.drop_first(), b.drop_first());
        assert(a == seq![a[0]] + a.drop_first());
        assert(b == seq![b[0]] + b.drop_first());
    }
}

/// The order is transitive.
pub proof fn lemma_lex_transitive(a: Seq<u8>, b: Seq<u8>, c: Seq<u8>)
    requires
        lex_leq(a, b),
        lex_leq(b, c),
    ensures
        lex_leq(a, c),
    decreases a.len(),
{
    if a.len() != 0 && b.len() != 0 && c.len() != 0 && a[0] == b[0] && b[0] == c[0] {
        lemma_lex_transitive(a.drop_first(), b.drop_first(), c.drop_first());
    }
}

/// Reduces the recursive order to a first point of difference: when `a` and
/// `b` agree on their first `i` bytes and `i` is the length of one of them or
/// an index where they differ, the order is decided there.
pub proof fn lemma_lex_at_index(a: Seq<u8>, b: Seq<u8>, i: int)
    requires
        0 <= i <= a.len(),
        i <= b.len(),
        a.take(i) == b.take(i),
        i == a.len() || i == b.len() || a[i] != b[i],
    ensures
        lex_leq(a, b) <==> (i == a.len() || (i < a.len() && i < b.len() && a[i] < b[i])),
    decreases i,
{
    if i == 0 {
        if a.len() != 0 && b.len() != 0 {
            assert(a[0] != b[0]);
        }
    } else {
        assert(a.take(i)[0] == b.take(i)[0]);
        assert(a.take(i)[0] == a[0]);
        assert(b.take(i)[0] == b[0]);
        assert(a[0] == b[0]);
        assert(a.len() > 0 && b.len() > 0);
        let a1 = a.drop_first();
        let b1 = b.drop_first();
        assert(a1.take(i - 1) == b1.take(i - 1)) by {
            assert(a1.take(i - 1) =~= a.take(i).drop_first());
            assert(b1.take(i - 1) =~= b.take(i).drop_first());
        }
        if i < a.len() && i < b.len() {
            assert(a1[i - 1] == a[i] && b1[i - 1] == b[i]);
        }
        lemma_lex_at_index(a1, b1, i - 1);
    }
}

/// Compares two byte strings in byte-wise ascending order.
pub fn lex_le(a: &Vec<u8>, b: &Vec<u8>) -> (r: bool)
    ensures
        r == lex_leq(a@, b@),
{
    let n: usize = if a.len() <= b.len() {
        a.len()
    } else {
        b.len()
    };
    let mut i: usize = 0;
    while i < n
        invariant
            0 <= i <= n,
            n == if a@.len() <= b@.len() {
                a@.len() as int
            } else {
                b@.len() as int
            },
            a@.take(i as int) == b@.take(i as int),
        decreases n - i,
    {
        if a[i] < b[i] {
            proof {
                lemma_lex_at_index(a@, b@, i as int);
            }
            return true;
        }
        if a[i] > b[i] {
            proof {
                lemma_lex_at_index(a@, b@, i as int);
            }
            return false;
        }
        assert(a@.take(i + 1) == b@.take(i + 1)) by {
            assert(a@.take(i + 1) =~= a@.take(i as int).push(a@[i as int]));
            assert(b@.take(i + 1) =~= b@.take(i as int).push(b@[i as int]));
        }
        i = i + 1;
    }
    proof {
        lemma_lex_at_index(a@, b@, n as int);
    }
    a.len() <= b.len()
}

/// The order as a relation value, for vstd's sorting lemmas.
pub open spec fn lex_leq_fn() -> spec_fn(Seq<u8>, Seq<u8>) -> bool {
    |a: Seq<u8>, b: Seq<u8>| lex_leq(a, b)
}

/// Byte-wise ascending order is a total ordering.
pub proof fn lemma_lex_total_ordering()
    ensures
        total_ordering(lex_leq_fn()),
{
    let r = lex_leq_fn();
    assert forall|a: Seq<u8>| #[trigger] r(a, a) by {
        lemma_lex_total(a, a);
    }
    assert forall|a: Seq<u8>, b: Seq<u8>| #[trigger] r(a, b) && #[trigger] r(b, a) implies a == b by {
        lemma_lex_antisymmetric(a, b);
    }
    assert forall|a: Seq<u8>, b: Seq<u8>, c: Seq<u8>| #[trigger] r(a, b) && #[trigger] r(b, c) implies r(
        a,
        c,
    ) by {
        lemma_lex_transitive(a, b, c);
    }
    assert forall|a: Seq<u8>, b: Seq<u8>| #[trigger] r(a, b) || #[trigger] r(b, a) by {
        lemma_lex_total(a, b);
    }
}

/// Compares two byte strings for equality.
pub fn bytes_eq(a: &Vec<u8>, b: &Vec<u8>) -> (r: bool)
    ensures
        r == (a@ == b@),
{
    if a.len() != b.len() {
        return false;
    }
    let mut i: usize = 0;
    while i < a.len()
        invariant
            i <= a@.len(),
            a@.len() == b@.len(),
            forall|k: int| 0 <= k < i ==> a@[k] == b@[k],
        decreases a@.len() - i,
    {
        if a[i] != b[i] {
            return false;
        }
        i = i + 1;
    }
    assert(a@ =~= b@);
    true
}

/// The element-wise views of a sequence of byte vectors.
pub open spec fn views_of(v: Seq<Vec<u8>>) -> Seq<Seq<u8>> {
    Seq::new(v.len(), |i: int| v[i]@)
}

/// True when consecutive elements of `s` are in byte-wise ascending order,
/// duplicates allowed.
pub open spec fn sorted(s: Seq<Seq<u8>>) -> bool {
    forall|i: int, j: int| 0 <= i < j < s.len() ==> lex_leq(#[trigger] s[i], #[trigger] s[j])
}

/// The two spellings of sortedness agree: the plain one and vstd's, under the
/// order relation value.
pub proof fn lemma_sorted_iff_sorted_by(s: Seq<Seq<u8>>)
    ensures
        sorted(s) <==> sorted_by(s, lex_leq_fn()),
{
    if sorted(s) {
        assert forall|i: int, j: int| 0 <= i < j < s.len() implies lex_leq_fn()(s[i], s[j]) by {
            assert(lex_leq(s[i], s[j]));
        }
    }
    if sorted_by(s, lex_leq_fn()) {
        assert forall|i: int, j: int| 0 <= i < j < s.len() implies lex_leq(
            #[trigger] s[i],
            #[trigger] s[j],
        ) by {
            assert(lex_leq_fn()(s[i], s[j]));
        }
    }
}

/// True when consecutive elements of `s` are in strictly ascending byte-wise
/// order, so no two elements are equal.
pub open spec fn strictly_sorted(s: Seq<Seq<u8>>) -> bool {
    forall|i: int, j: int| 0 <= i < j < s.len() ==> lex_lt(#[trigger] s[i], #[trigger] s[j])
}

/// Strict order is transitive.
pub proof fn lemma_lex_lt_transitive(a: Seq<u8>, b: Seq<u8>, c: Seq<u8>)
    requires
        lex_lt(a, b),
        lex_lt(b, c),
    ensures
        lex_lt(a, c),
{
    lemma_lex_transitive(a, b, c);
    if a == c {
        lemma_lex_antisymmetric(a, b);
    }
}

/// Inserting into a sequence adds exactly one occurrence to its contents.
pub proof fn lemma_insert_multiset<A>(s: Seq<A>, j: int, x: A)
    requires
        0 <= j <= s.len(),
    ensures
        s.insert(j, x).to_multiset() == s.to_multiset().insert(x),
{
    broadcast use vstd::seq_lib::group_to_multiset_ensures;
    broadcast use vstd::seq_lib::lemma_multiset_commutative;

    let left = s.subrange(0, j);
    let right = s.subrange(j, s.len() as int);
    assert(s.insert(j, x) == left.push(x) + right);
    assert(s =~= left + right);
    assert(left.push(x).to_multiset() =~= left.to_multiset().insert(x));
    assert((left.push(x) + right).to_multiset() =~= left.to_multiset().insert(x).add(
        right.to_multiset(),
    ));
    assert((left + right).to_multiset() =~= left.to_multiset().add(right.to_multiset()));
    assert(left.to_multiset().insert(x).add(right.to_multiset()) =~= left.to_multiset().add(
        right.to_multiset(),
    ).insert(x));
}

/// Inserting a byte vector inserts its view into the element-wise views.
pub proof fn lemma_views_insert(v0: Seq<Vec<u8>>, v1: Seq<Vec<u8>>, j: int, x: Vec<u8>)
    requires
        0 <= j <= v0.len(),
        v1 == v0.insert(j, x),
    ensures
        views_of(v1) == views_of(v0).insert(j, x@),
{
    assert forall|k: int| 0 <= k < v1.len() implies views_of(v1)[k] == views_of(v0).insert(
        j,
        x@,
    )[k] by {
        if k < j {
            assert(v1[k] == v0[k]);
        } else if k == j {
            assert(v1[k] == x);
        } else {
            assert(v1[k] == v0[k - 1]);
        }
    }
    assert(views_of(v1) =~= views_of(v0).insert(j, x@));
}

/// Inserts `x` into a vector sorted in byte-wise ascending order, keeping it
/// sorted; the contents gain exactly one occurrence of `x`.
pub fn insert_sorted(v: &mut Vec<Vec<u8>>, x: Vec<u8>)
    requires
        sorted(views_of(old(v)@)),
    ensures
        sorted(views_of(final(v)@)),
        views_of(final(v)@).to_multiset() == views_of(old(v)@).to_multiset().insert(x@),
        final(v)@.len() == old(v)@.len() + 1,
{
    let ghost dv0 = views_of(v@);
    let mut j: usize = 0;
    while j < v.len() && !lex_le(&x, &v[j])
        invariant
            j <= v@.len(),
            views_of(v@) == dv0,
            v@.len() == dv0.len(),
            sorted(dv0),
            forall|k: int| 0 <= k < j ==> !lex_leq(x@, #[trigger] dv0[k]),
        decreases v@.len() - j,
    {
        assert(v@[j as int]@ == dv0[j as int]);
        j = j + 1;
    }
    proof {
        assert forall|k: int| 0 <= k < j implies lex_leq(#[trigger] dv0[k], x@) by {
            lemma_lex_total(x@, dv0[k]);
        }
        if (j as int) < dv0.len() {
            assert(lex_leq(x@, dv0[j as int]));
        }
    }
    let ghost xv = x@;
    let ghost jj = j as int;
    v.insert(j, x);
    proof {
        lemma_views_insert(old(v)@, v@, jj, x);
        let dv1 = views_of(v@);
        assert(dv1 == dv0.insert(jj, xv));
        lemma_insert_multiset(dv0, jj, xv);
        assert forall|a: int, b: int| 0 <= a < b < dv1.len() implies lex_leq(
            #[trigger] dv1[a],
            #[trigger] dv1[b],
        ) by {
            lemma_insert_order(dv0, dv1, jj, xv, a, b);
        }
    }
}

/// One comparison inside a freshly inserted sequence: both sides of the
/// insertion point stay ordered against the new element.
proof fn lemma_insert_order(dv0: Seq<Seq<u8>>, dv1: Seq<Seq<u8>>, j: int, x: Seq<u8>, a: int, b: int)
    requires
        0 <= j <= dv0.len(),
        dv1 == dv0.insert(j, x),
        sorted(dv0),
        forall|k: int| 0 <= k < j ==> lex_leq(#[trigger] dv0[k], x),
        j < dv0.len() ==> lex_leq(x, dv0[j]),
        0 <= a < b < dv1.len(),
    ensures
        lex_leq(dv1[a], dv1[b]),
{
    assert(dv1[a] == if a < j {
        dv0[a]
    } else if a == j {
        x
    } else {
        dv0[a - 1]
    });
    assert(dv1[b] == if b < j {
        dv0[b]
    } else if b == j {
        x
    } else {
        dv0[b - 1]
    });
    if a == j {
        if b - 1 == j {
        } else {
            assert(lex_leq(dv0[j], dv0[b - 1]));
            lemma_lex_transitive(x, dv0[j], dv0[b - 1]);
        }
    } else if b == j {
        assert(lex_leq(dv0[a], x));
    } else if a < j && b > j {
        if b - 1 == j {
            assert(lex_leq(dv0[a], dv0[j]) || a == j);
        } else {
            assert(lex_leq(dv0[a], dv0[b - 1]));
        }
    } else if b < j {
        assert(lex_leq(dv0[a], dv0[b]));
    } else {
        assert(lex_leq(dv0[a - 1], dv0[b - 1]));
    }
}

/// Inserts `x` into a strictly sorted vector unless it is already present;
/// afterwards the vector is strictly sorted and holds exactly the old
/// contents and `x`.
pub fn insert_unique_sorted(v: &mut Vec<Vec<u8>>, x: Vec<u8>)
    requires
        strictly_sorted(views_of(old(v)@)),
    ensures
        strictly_sorted(views_of(final(v)@)),
        forall|n: Seq<u8>| views_of(final(v)@).contains(n) <==> views_of(old(v)@).contains(n) || n
            == x@,
{
    let ghost dv0 = views_of(v@);
    let mut j: usize = 0;
    while j < v.len() && !lex_le(&x, &v[j])
        invariant
            j <= v@.len(),
            views_of(v@) == dv0,
            v@.len() == dv0.len(),
            strictly_sorted(dv0),
            forall|k: int| 0 <= k < j ==> !lex_leq(x@, #[trigger] dv0[k]),
        decreases v@.len() - j,
    {
        assert(v@[j as int]@ == dv0[j as int]);
        j = j + 1;
    }
    if j < v.len() && bytes_eq(&v[j], &x) {
        proof {
            assert(dv0[j as int] == x@);
            assert(dv0.contains(x@));
        }
        return;
    }
    proof {
        assert forall|k: int| 0 <= k < j implies lex_lt(#[trigger] dv0[k], x@) by {
            lemma_lex_total(x@, dv0[k]);
            if dv0[k] == x@ {
                lemma_lex_total(x@, x@);
            }
        }
        if (j as int) < dv0.len() {
            assert(v@[j as int]@ == dv0[j as int]);
            assert(lex_leq(x@, dv0[j as int]));
            assert(dv0[j as int] != x@);
        }
    }
    let ghost xv = x@;
    let ghost jj = j as int;
    v.insert(j, x);
    proof {
        lemma_views_insert(old(v)@, v@, jj, x);
        let dv1 = views_of(v@);
        assert(dv1 == dv0.insert(jj, xv));
        assert forall|a: int, b: int| 0 <= a < b < dv1.len() implies lex_lt(
            #[trigger] dv1[a],
            #[trigger] dv1[b],
        ) by {
            lemma_insert_strict_order(dv0, dv1, jj, xv, a, b);
        }
        assert forall|n: Seq<u8>| dv1.contains(n) <==> dv0.contains(n) || n == xv by {
            if dv1.contains(n) {
                let w = choose|w: int| 0 <= w < dv1.len() && dv1[w] == n;
                if w < jj {
                    assert(dv0[w] == n);
                } else if w > jj {
                    assert(dv0[w - 1] == n);
                }
            }
            if dv0.contains(n) {
                let w = choose|w: int| 0 <= w < dv0.len() && dv0[w] == n;
                if w < jj {
                    assert(dv1[w] == n);
                } else {
                    assert(dv1[w + 1] == n);
                }
            }
            if n == xv {
                assert(dv1[jj] == n);
            }
        }
    }
}

/// As [`lemma_insert_order`], for the strict order.
proof fn lemma_insert_strict_order(
    dv0: Seq<Seq<u8>>,
    dv1: Seq<Seq<u8>>,
    j: int,
    x: Seq<u8>,
    a: int,
    b: int,
)
    requires
        0 <= j <= dv0.len(),
        dv1 == dv0.insert(j, x),
        strictly_sorted(dv0),
        forall|k: int| 0 <= k < j ==> lex_lt(#[trigger] dv0[k], x),
        j < dv0.len() ==> lex_lt(x, dv0[j]),
        0 <= a < b < dv1.len(),
    ensures
        lex_lt(dv1[a], dv1[b]),
{
    assert(dv1[a] == if a < j {
        dv0[a]
    } else if a == j {
        x
    } else {
        dv0[a - 1]
    });
    assert(dv1[b] == if b < j {
        dv0[b]
    } else if b == j {
        x
    } else {
        dv0[b - 1]
    });
    if a == j {
        if b - 1 == j {
        } else {
            assert(lex_lt(dv0[j], dv0[b - 1]));
            lemma_lex_lt_transitive(x, dv0[j], dv0[b - 1]);
        }
    } else if b == j {
        assert(lex_lt(dv0[a], x));
    } else if a < j && b > j {
        assert(lex_lt(dv0[a], x));
        if b - 1 == j {
        } else {
            assert(lex_lt(dv0[j], dv0[b - 1]));
            lemma_lex_lt_transitive(x, dv0[j], dv0[b - 1]);
            lemma_lex_lt_transitive(dv0[a], x, dv0[b - 1]);
        }
    } else if b < j {
        assert(lex_lt(dv0[a], dv0[b]));
    } else {
        assert(lex_lt(dv0[a - 1], dv0[b - 1]));
    }
}

/// Two strictly sorted sequences with the same members are the same sequence:
/// a strictly sorted enumeration of a set of names is unique.
pub proof fn lemma_strictly_sorted_unique(x: Seq<Seq<u8>>, y: Seq<Seq<u8>>)
    requires
        strictly_sorted(x),
        strictly_sorted(y),
        forall|n: Seq<u8>| x.contains(n) <==> y.contains(n),
    ensures
        x == y,
    decreases x.len(),
{
    if x.len() == 0 {
        if y.len() > 0 {
            assert(y.contains(y[0]));
        }
        assert(x =~= y);
    } else if y.len() == 0 {
        assert(x.contains(x[0]));
    } else {
        assert(x.contains(x[0]) && y.contains(y[0]));
        let i = choose|i: int| 0 <= i < y.len() && y[i] == x[0];
        let k = choose|k: int| 0 <= k < x.len() && x[k] == y[0];
        assert(x[0] == y[0]) by {
            if i > 0 && k > 0 {
                assert(lex_lt(y[0], y[i]));
                assert(lex_lt(x[0], x[k]));
                lemma_lex_lt_transitive(y[0], x[0], y[0]);
            }
        }
        let xt = x.drop_first();
        let yt = y.drop_first();
        assert forall|n: Seq<u8>| xt.contains(n) <==> yt.contains(n) by {
            lemma_tail_membership(x, n);
            lemma_tail_membership(y, n);
        }
        lemma_strictly_sorted_unique(xt, yt);
        assert(x =~= seq![x[0]] + xt);
        assert(y =~= seq![y[0]] + yt);
    }
}

/// In a strictly sorted sequence the tail holds exactly the members other
/// than the head.
pub proof fn lemma_tail_membership(x: Seq<Seq<u8>>, n: Seq<u8>)
    requires
        strictly_sorted(x),
        x.len() > 0,
    ensures
        x.drop_first().contains(n) <==> (x.contains(n) && n != x[0]),
{
    let xt = x.drop_first();
    if xt.contains(n) {
        let w = choose|w: int| 0 <= w < xt.len() && xt[w] == n;
        assert(x[w + 1] == n);
        assert(lex_lt(x[0], x[w + 1]));
        assert(x.contains(n));
    }
    if x.contains(n) && n != x[0] {
        let w = choose|w: int| 0 <= w < x.len() && x[w] == n;
        assert(w > 0);
        assert(xt[w - 1] == n);
    }
}

} // verus!
