//! Lexicographic keys and a stable sort by them.

use vstd::prelude::*;
use vstd::set_lib::{lemma_int_range, lemma_subset_equality, set_int_range};

verus! {

/// Strict lexicographic order on sequences of code units.
pub open spec fn lex_lt(a: Seq<u32>, b: Seq<u32>) -> bool
    decreases a.len(),
{
    if a.len() == 0 {
        b.len() > 0
    } else if b.len() == 0 {
        false
    } else if a[0] != b[0] {
        a[0] < b[0]
    } else {
        lex_lt(a.drop_first(), b.drop_first())
    }
}

/// A sort key: a major part, and a minor part that breaks ties.
pub struct SortKey {
    pub major: Vec<u32>,
    pub minor: Vec<u32>,
}

impl View for SortKey {
    type V = (Seq<u32>, Seq<u32>);

    open spec fn view(&self) -> (Seq<u32>, Seq<u32>) {
        (self.major@, self.minor@)
    }
}

/// Strict order on keys: by the major part, then by the minor part.
pub open spec fn key_lt(a: (Seq<u32>, Seq<u32>), b: (Seq<u32>, Seq<u32>)) -> bool {
    lex_lt(a.0, b.0) || (a.0 == b.0 && lex_lt(a.1, b.1))
}

/// `a` comes no later than `b`.
pub open spec fn key_le(a: (Seq<u32>, Seq<u32>), b: (Seq<u32>, Seq<u32>)) -> bool {
    !key_lt(b, a)
}

/// The plain views of a sequence of keys.
pub open spec fn key_views(keys: Seq<SortKey>) -> Seq<(Seq<u32>, Seq<u32>)> {
    Seq::new(keys.len(), |i: int| keys[i]@)
}

/// `p` lists every position of `keys` once, in the order of a stable sort:
/// keys never decrease along `p`, and positions with equal keys keep their
/// input order.
pub open spec fn stable_order(p: Seq<int>, keys: Seq<(Seq<u32>, Seq<u32>)>) -> bool {
    &&& p.len() == keys.len()
    &&& forall|i: int| 0 <= i < p.len() ==> 0 <= #[trigger] p[i] < keys.len()
    &&& forall|i: int, j: int| 0 <= i < j < p.len() ==> #[trigger] p[i] != #[trigger] p[j]
    &&& forall|i: int, j: int|
        0 <= i < j < p.len() ==> key_le(keys[#[trigger] p[i]], keys[#[trigger] p[j]])
    &&& forall|i: int, j: int|
        0 <= i < j < p.len() && keys[#[trigger] p[i]] == keys[#[trigger] p[j]] ==> p[i] < p[j]
}

/// `r` holds the items of `s` rearranged along `p`.
pub open spec fn arranged<T>(r: Seq<T>, s: Seq<T>, p: Seq<int>) -> bool {
    r.len() == p.len() && forall|i: int| 0 <= i < r.len() ==> r[i] == s[#[trigger] p[i]]
}

/// `lex_lt` never holds both ways.
pub proof fn lemma_lex_asym(a: Seq<u32>, b: Seq<u32>)
    ensures
        !(lex_lt(a, b) && lex_lt(b, a)),
    decreases a.len(),
{
    if a.len() > 0 && b.len() > 0 && a[0] == b[0] {
        lemma_lex_asym(a.drop_first(), b.drop_first());
    }
}

/// `lex_lt` is transitive.
pub proof fn lemma_lex_trans(a: Seq<u32>, b: Seq<u32>, c: Seq<u32>)
    requires
        lex_lt(a, b),
        lex_lt(b, c),
    ensures
        lex_lt(a, c),
    decreases a.len(),
{
    if a.len() > 0 && b.len() > 0 && c.len() > 0 && a[0] == b[0] && b[0] == c[0] {
        lemma_lex_trans(a.drop_first(), b.drop_first(), c.drop_first());
    }
}

/// Two different sequences are ordered one way or the other.
pub proof fn lemma_lex_total(a: Seq<u32>, b: Seq<u32>)
    requires
        a != b,
    ensures
        lex_lt(a, b) || lex_lt(b, a),
    decreases a.len(),
{
    if a.len() > 0 && b.len() > 0 && a[0] == b[0] {
        if a.drop_first() == b.drop_first() {
            assert(a =~= seq![a[0]] + a.drop_first());
            assert(b =~= seq![b[0]] + b.drop_first());
        }
        lemma_lex_total(a.drop_first(), b.drop_first());
    } else if a.len() == 0 && b.len() == 0 {
        assert(a =~= b);
    }
}

/// `key_lt` is a strict total order, so `key_le` is a total order.
pub proof fn lemma_key_order(
    a: (Seq<u32>, Seq<u32>),
    b: (Seq<u32>, Seq<u32>),
    c: (Seq<u32>, Seq<u32>),
)
    ensures
        !(key_lt(a, b) && key_lt(b, a)),
        key_lt(a, b) && key_lt(b, c) ==> key_lt(a, c),
        a != b ==> key_lt(a, b) || key_lt(b, a),
        key_le(a, b) && key_le(b, c) ==> key_le(a, c),
        key_le(a, b) || key_le(b, a),
        key_le(a, b) && key_le(b, a) ==> a == b,
{
    lemma_lex_asym(a.0, b.0);
    lemma_lex_asym(a.1, b.1);
    lemma_lex_asym(a.0, c.0);
    lemma_lex_asym(b.0, c.0);
    lemma_lex_asym(a.1, c.1);
    lemma_lex_asym(b.1, c.1);
    if lex_lt(a.0, b.0) && lex_lt(b.0, c.0) {
        lemma_lex_trans(a.0, b.0, c.0);
    }
    if lex_lt(a.1, b.1) && lex_lt(b.1, c.1) {
        lemma_lex_trans(a.1, b.1, c.1);
    }
    if lex_lt(c.0, a.0) && lex_lt(a.0, b.0) {
        lemma_lex_trans(c.0, a.0, b.0);
    }
    if lex_lt(b.0, c.0) && lex_lt(c.0, a.0) {
        lemma_lex_trans(b.0, c.0, a.0);
    }
    if lex_lt(c.1, a.1) && lex_lt(a.1, b.1) {
        lemma_lex_trans(c.1, a.1, b.1);
    }
    if lex_lt(b.1, c.1) && lex_lt(c.1, a.1) {
        lemma_lex_trans(b.1, c.1, a.1);
    }
    if a.0 != b.0 {
        lemma_lex_total(a.0, b.0);
    }
    if a.1 != b.1 {
        lemma_lex_total(a.1, b.1);
    }
    if a.0 != c.0 {
        lemma_lex_total(a.0, c.0);
    }
    if a.1 != c.1 {
        lemma_lex_total(a.1, c.1);
    }
    if b.0 != c.0 {
        lemma_lex_total(b.0, c.0);
    }
    if b.1 != c.1 {
        lemma_lex_total(b.1, c.1);
    }
}

/// Whether `a` comes before `b` lexicographically.
pub fn lex_less(a: &Vec<u32>, b: &Vec<u32>) -> (r: bool)
    ensures
        r == lex_lt(a@, b@),
{
    let mut i: usize = 0;
    assert(a@.skip(0) =~= a@);
    assert(b@.skip(0) =~= b@);
    while i < a.len() && i < b.len() && a[i] == b[i]
        invariant
            i <= a.len(),
            i <= b.len(),
            lex_lt(a@, b@) == lex_lt(a@.skip(i as int), b@.skip(i as int)),
        decreases a.len() - i,
    {
        assert(a@.skip(i as int).drop_first() =~= a@.skip(i + 1));
        assert(b@.skip(i as int).drop_first() =~= b@.skip(i + 1));
        i = i + 1;
    }
    if i == a.len() {
        i < b.len()
    } else if i == b.len() {
        false
    } else {
        a[i] < b[i]
    }
}

/// Whether key `a` comes strictly before key `b`.
pub fn key_less(a: &SortKey, b: &SortKey) -> (r: bool)
    ensures
        r == key_lt(a@, b@),
{
    if lex_less(&a.major, &b.major) {
        true
    } else if lex_less(&b.major, &a.major) {
        false
    } else {
        proof {
            if a.major@ != b.major@ {
                lemma_lex_total(a.major@, b.major@);
            }
        }
        lex_less(&a.minor, &b.minor)
    }
}

/// Sorts `items` by `keys` (the key of `items[i]` is `keys[i]`), keeping
/// items with equal keys in their input order.
pub fn stable_sort_by_keys<T>(items: Vec<T>, keys: &Vec<SortKey>) -> (r: Vec<T>)
    requires
        items.len() == keys.len(),
    ensures
        exists|p: Seq<int>| stable_order(p, key_views(keys@)) && arranged(r@, items@, p),
{
    let ghost orig = items@;
    let ghost ks = key_views(keys@);
    let n = items.len();
    let mut items = items;
    let mut out: Vec<T> = Vec::new();
    let mut pos_of: Vec<usize> = Vec::new();
    while items.len() > 0
        invariant
            n == keys.len(),
            ks == key_views(keys@),
            items.len() <= n,
            items@ == orig.take(items.len() as int),
            orig.len() == n,
            out.len() == pos_of.len(),
            out.len() + items.len() == n,
            forall|i: int|
                0 <= i < pos_of.len() ==> items.len() <= #[trigger] pos_of@[i] < n,
            forall|i: int, j: int|
                0 <= i < j < pos_of.len() ==> #[trigger] pos_of@[i] != #[trigger] pos_of@[j],
            forall|i: int, j: int|
                0 <= i < j < pos_of.len() ==> key_le(
                    ks[#[trigger] pos_of@[i] as int],
                    ks[#[trigger] pos_of@[j] as int],
                ),
            forall|i: int, j: int|
                0 <= i < j < pos_of.len() && ks[#[trigger] pos_of@[i] as int]
                    == ks[#[trigger] pos_of@[j] as int] ==> pos_of@[i] < pos_of@[j],
            forall|i: int| 0 <= i < out.len() ==> out@[i] == orig[#[trigger] pos_of@[i] as int],
        decreases items.len(),
    {
        let k = items.len() - 1;
        let x = items.pop().unwrap();
        assert(x == orig[k as int]);
        assert(items@ =~= orig.take(k as int));
        let mut m: usize = 0;
        while m < pos_of.len() && key_less(&keys[pos_of[m]], &keys[k])
            invariant
                n == keys.len(),
                ks == key_views(keys@),
                k < n,
                m <= pos_of.len(),
                forall|i: int| 0 <= i < pos_of.len() ==> k < #[trigger] pos_of@[i] < n,
                forall|i: int| 0 <= i < m ==> key_lt(ks[#[trigger] pos_of@[i] as int], ks[k as int]),
            decreases pos_of.len() - m,
        {
            m = m + 1;
        }
        let ghost old_pos = pos_of@;
        let ghost old_out = out@;
        proof {
            if m < old_pos.len() {
                assert(!key_lt(ks[old_pos[m as int] as int], ks[k as int]));
            }
            assert forall|j: int| m <= j < old_pos.len() implies key_le(
                ks[k as int],
                ks[#[trigger] old_pos[j] as int],
            ) by {
                lemma_key_order(ks[k as int], ks[old_pos[m as int] as int], ks[old_pos[j] as int]);
                if j > m {
                    assert(key_le(ks[old_pos[m as int] as int], ks[old_pos[j] as int]));
                }
            }
            assert forall|j: int| 0 <= j < m implies #[trigger] ks[old_pos[j] as int] != ks[k as int]
                && key_le(ks[old_pos[j] as int], ks[k as int]) by {
                lemma_key_order(ks[old_pos[j] as int], ks[k as int], ks[k as int]);
            }
        }
        out.insert(m, x);
        pos_of.insert(m, k);
        proof {
            assert(pos_of@ =~= old_pos.insert(m as int, k));
            assert(out@ =~= old_out.insert(m as int, x));
            assert forall|i: int, j: int| 0 <= i < j < pos_of.len() implies key_le(
                ks[#[trigger] pos_of@[i] as int],
                ks[#[trigger] pos_of@[j] as int],
            ) by {
                if i < m && j > m {
                    lemma_key_order(
                        ks[old_pos[i] as int],
                        ks[k as int],
                        ks[old_pos[j - 1] as int],
                    );
                    assert(key_le(ks[k as int], ks[old_pos[j - 1] as int]));
                }
                if i < m && j < m {
                    assert(key_le(ks[old_pos[i] as int], ks[old_pos[j] as int]));
                }
                if i > m && j > m {
                    assert(key_le(ks[old_pos[i - 1] as int], ks[old_pos[j - 1] as int]));
                }
                if i < m && j == m {
                    assert(key_le(ks[old_pos[i] as int], ks[k as int]));
                }
                if i == m && j > m {
                    assert(key_le(ks[k as int], ks[old_pos[j - 1] as int]));
                }
            }
            assert forall|i: int, j: int|
                0 <= i < j < pos_of.len() && ks[#[trigger] pos_of@[i] as int]
                    == ks[#[trigger] pos_of@[j] as int] implies pos_of@[i] < pos_of@[j] by {
                if i < m && j > m {
                    lemma_key_order(
                        ks[old_pos[i] as int],
                        ks[k as int],
                        ks[old_pos[j - 1] as int],
                    );
                    assert(ks[old_pos[i] as int] != ks[k as int]);
                    assert(key_le(ks[k as int], ks[old_pos[j - 1] as int]));
                }
                if i < m && j < m {
                    assert(pos_of@[i] == old_pos[i]);
                    assert(pos_of@[j] == old_pos[j]);
                }
                if i > m && j > m {
                    assert(pos_of@[i] == old_pos[i - 1]);
                    assert(pos_of@[j] == old_pos[j - 1]);
                }
                if i < m && j == m {
                    assert(ks[old_pos[i] as int] != ks[k as int]);
                }
            }
            assert forall|i: int, j: int| 0 <= i < j < pos_of.len() implies #[trigger] pos_of@[i]
                != #[trigger] pos_of@[j] by {
                if i < m && j < m {
                    assert(pos_of@[i] == old_pos[i]);
                    assert(pos_of@[j] == old_pos[j]);
                }
                if i > m && j > m {
                    assert(pos_of@[i] == old_pos[i - 1]);
                    assert(pos_of@[j] == old_pos[j - 1]);
                }
                if i < m && j > m {
                    assert(pos_of@[i] == old_pos[i]);
                    assert(pos_of@[j] == old_pos[j - 1]);
                }
            }
            assert forall|i: int| 0 <= i < out.len() implies out@[i] == orig[
                #[trigger] pos_of@[i] as int
            ] by {
                if i < m {
                    assert(out@[i] == old_out[i]);
                } else if i > m {
                    assert(out@[i] == old_out[i - 1]);
                }
            }
        }
    }
    let ghost p = Seq::new(pos_of.len() as nat, |i: int| pos_of@[i] as int);
    assert(stable_order(p, ks));
    assert(arranged(out@, orig, p));
    out
}

/// Position `a` goes before position `b` in a stable sort by `keys`: by
/// key, and by position between equal keys.
pub open spec fn goes_before(keys: Seq<(Seq<u32>, Seq<u32>)>, a: int, b: int) -> bool {
    key_lt(keys[a], keys[b]) || (keys[a] == keys[b] && a < b)
}

/// Along a stable order every position goes before the later ones.
pub proof fn lemma_stable_order_increasing(p: Seq<int>, keys: Seq<(Seq<u32>, Seq<u32>)>, i: int, j: int)
    requires
        stable_order(p, keys),
        0 <= i < j < p.len(),
    ensures
        goes_before(keys, p[i], p[j]),
        !goes_before(keys, p[j], p[i]),
{
    lemma_key_order(keys[p[i]], keys[p[j]], keys[p[j]]);
    assert(key_le(keys[p[i]], keys[p[j]]));
    if keys[p[i]] == keys[p[j]] {
        assert(p[i] < p[j]);
    }
}

/// A stable order lists every position.
pub proof fn lemma_stable_order_onto(p: Seq<int>, keys: Seq<(Seq<u32>, Seq<u32>)>, x: int)
    requires
        stable_order(p, keys),
        0 <= x < keys.len(),
    ensures
        exists|i: int| 0 <= i < p.len() && p[i] == x,
{
    let n = keys.len() as int;
    assert(p.no_duplicates()) by {
        assert forall|i: int, j: int| 0 <= i < p.len() && 0 <= j < p.len() && i != j implies p[i]
            != p[j] by {
            if i < j {
                assert(p[i] != p[j]);
            } else {
                assert(p[j] != p[i]);
            }
        }
    }
    p.unique_seq_to_set();
    lemma_int_range(0, n);
    assert(p.to_set().subset_of(set_int_range(0, n))) by {
        assert forall|v: int| p.to_set().contains(v) implies set_int_range(0, n).contains(v) by {
            let i = choose|i: int| 0 <= i < p.len() && p[i] == v;
            assert(0 <= p[i] < n);
        }
    }
    lemma_subset_equality(p.to_set(), set_int_range(0, n));
    assert(set_int_range(0, n).contains(x));
    assert(p.to_set().contains(x));
}

/// Two stable orders by the same keys agree up to position `i`.
proof fn lemma_stable_order_agree(
    p: Seq<int>,
    q: Seq<int>,
    keys: Seq<(Seq<u32>, Seq<u32>)>,
    i: int,
)
    requires
        stable_order(p, keys),
        stable_order(q, keys),
        0 <= i < p.len(),
    ensures
        forall|m: int| 0 <= m <= i ==> p[m] == q[m],
    decreases i,
{
    if i > 0 {
        lemma_stable_order_agree(p, q, keys, i - 1);
    }
    let a = p[i];
    let b = q[i];
    if a != b {
        lemma_stable_order_onto(p, keys, b);
        let j = choose|j: int| 0 <= j < p.len() && p[j] == b;
        lemma_stable_order_onto(q, keys, a);
        let k = choose|k: int| 0 <= k < q.len() && q[k] == a;
        if j < i {
            assert(q[j] == b);
            assert(q[j] != q[i]);
        }
        if k < i {
            assert(p[k] == a);
            assert(p[k] != p[i]);
        }
        lemma_stable_order_increasing(p, keys, i, j);
        lemma_stable_order_increasing(q, keys, i, k);
        lemma_key_order(keys[a], keys[b], keys[b]);
    }
}

/// A stable sort is determined by its keys: there is only one stable
/// order for them.
pub proof fn law_stable_order_unique(p: Seq<int>, q: Seq<int>, keys: Seq<(Seq<u32>, Seq<u32>)>)
    requires
        stable_order(p, keys),
        stable_order(q, keys),
    ensures
        p == q,
{
    if p.len() > 0 {
        lemma_stable_order_agree(p, q, keys, p.len() - 1);
    }
    assert(p =~= q);
}

} // verus!
