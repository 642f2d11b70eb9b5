//! Stable ordering by a key: integers and texts.

use vstd::prelude::*;

use crate::strings::chars_of;

verus! {

/// A key by which items are put in order.
pub trait Ranked: Sized {
    /// Whether this key may stand before the other.
    spec fn no_later(&self, other: &Self) -> bool;

    proof fn total(a: &Self, b: &Self)
        ensures
            a.no_later(b) || b.no_later(a),
    ;

    proof fn transitive(a: &Self, b: &Self, c: &Self)
        requires
            a.no_later(b),
            b.no_later(c),
        ensures
            a.no_later(c),
    ;

    /// Whether this key may stand before the other.
    fn precedes(&self, other: &Self) -> (r: bool)
        ensures
            r == self.no_later(other),
    ;
}

impl Ranked for i64 {
    open spec fn no_later(&self, other: &Self) -> bool {
        *self <= *other
    }

    proof fn total(a: &Self, b: &Self) {
    }

    proof fn transitive(a: &Self, b: &Self, c: &Self) {
    }

    fn precedes(&self, other: &Self) -> (r: bool) {
        *self <= *other
    }
}

/// Whether text `a` stands before text `b` or is the same: by the first character in which they
/// differ, a prefix first.
pub open spec fn text_le(a: Seq<char>, b: Seq<char>) -> bool
    decreases a.len(),
{
    if a.len() == 0 {
        true
    } else if b.len() == 0 {
        false
    } else if a[0] != b[0] {
        a[0] < b[0]
    } else {
        text_le(a.skip(1), b.skip(1))
    }
}

proof fn lemma_text_total(a: Seq<char>, b: Seq<char>)
    ensures
        text_le(a, b) || text_le(b, a),
    decreases a.len(),
{
    if a.len() > 0 && b.len() > 0 && a[0] == b[0] {
        lemma_text_total(a.skip(1), b.skip(1));
    }
}

proof fn lemma_text_transitive(a: Seq<char>, b: Seq<char>, c: Seq<char>)
    requires
        text_le(a, b),
        text_le(b, c),
    ensures
        text_le(a, c),
    decreases a.len(),
{
    if a.len() > 0 && b.len() > 0 && c.len() > 0 && a[0] == b[0] && b[0] == c[0] {
        lemma_text_transitive(a.skip(1), b.skip(1), c.skip(1));
    }
}

/// Law: texts that may stand before each other are the same.
pub proof fn law_text_order_is_strict(a: Seq<char>, b: Seq<char>)
    requires
        text_le(a, b),
        text_le(b, a),
    ensures
        a == b,
    decreases a.len(),
{
    if a.len() > 0 && b.len() > 0 {
        law_text_order_is_strict(a.skip(1), b.skip(1));
        assert(a == seq![a[0]] + a.skip(1));
        assert(b == seq![b[0]] + b.skip(1));
    } else {
        assert(a == b);
    }
}

impl Ranked for String {
    open spec fn no_later(&self, other: &Self) -> bool {
        text_le(self@, other@)
    }

    proof fn total(a: &Self, b: &Self) {
        lemma_text_total(a@, b@);
    }

    proof fn transitive(a: &Self, b: &Self, c: &Self) {
        lemma_text_transitive(a@, b@, c@);
    }

    fn precedes(&self, other: &Self) -> (r: bool) {
        let a: Vec<char> = chars_of(self.as_str());
        let b: Vec<char> = chars_of(other.as_str());
        let mut i: usize = 0;
        proof {
            assert(a@.skip(0) == a@);
            assert(b@.skip(0) == b@);
        }
        while i < a.len() && i < b.len()
            invariant
                i <= a.len(),
                i <= b.len(),
                a@ == self@,
                b@ == other@,
                text_le(a@.skip(i as int), b@.skip(i as int)) == text_le(a@, b@),
            decreases a.len() - i,
        {
            proof {
                assert(a@.skip(i as int).skip(1) == a@.skip(i + 1));
                assert(b@.skip(i as int).skip(1) == b@.skip(i + 1));
            }
            if a[i] != b[i] {
                return a[i] < b[i];
            }
            i = i + 1;
        }
        i == a.len()
    }
}

/// Whether `r` lists the items `0..n` in the stable order of their keys: each once, no item
/// behind one with a later key, and items that may change places in their old order.
pub open spec fn stably_ordered<K: Ranked>(keys: Seq<K>, r: Seq<usize>) -> bool {
    &&& r.len() == keys.len()
    &&& forall|i: int| 0 <= i < r.len() ==> 0 <= #[trigger] r[i] < keys.len()
    &&& r.no_duplicates()
    &&& in_order(keys, r)
}

/// No item stands behind one with a later key, and items that may change places stand in their
/// old order.
pub open spec fn in_order<K: Ranked>(keys: Seq<K>, r: Seq<usize>) -> bool {
    forall|i: int, j: int|
        0 <= i < j < r.len() ==> keys[(#[trigger] r[i]) as int].no_later(
            &keys[(#[trigger] r[j]) as int],
        ) && (keys[r[j] as int].no_later(&keys[r[i] as int]) ==> r[i] < r[j])
}

/// The indices of items in the stable order of their keys.
pub fn stable_order<K: Ranked>(keys: &[K]) -> (r: Vec<usize>)
    ensures
        stably_ordered(keys@, r@),
{
    let mut r: Vec<usize> = Vec::new();
    let n: usize = keys.len();
    let mut k: usize = 0;
    while k < n
        invariant
            k <= n,
            n == keys@.len(),
            r@.len() == k,
            forall|i: int| 0 <= i < r@.len() ==> #[trigger] r@[i] < k,
            r@.no_duplicates(),
            in_order(keys@, r@),
        decreases n - k,
    {
        let mut p: usize = k;
        let ghost ks = keys@;
        let ghost old_r = r@;
        while p > 0 && !keys[r[p - 1]].precedes(&keys[k])
            invariant
                p <= k < n,
                n == keys@.len(),
                ks == keys@,
                r@ == old_r,
                r@.len() == k,
                forall|i: int| 0 <= i < r@.len() ==> #[trigger] r@[i] < k,
                forall|i: int|
                    p <= i < k ==> !ks[(#[trigger] r@[i]) as int].no_later(&ks[k as int]),
            decreases p,
        {
            p = p - 1;
        }
        proof {
            assert forall|i: int| 0 <= i < p implies ks[(#[trigger] old_r[i]) as int].no_later(
                &ks[k as int],
            ) by {
                if i < p - 1 {
                    assert(ks[old_r[i] as int].no_later(&ks[old_r[p - 1] as int]));
                    K::transitive(
                        &ks[old_r[i] as int],
                        &ks[old_r[p - 1] as int],
                        &ks[k as int],
                    );
                }
            }
            assert forall|i: int| p <= i < k implies ks[k as int].no_later(
                &ks[(#[trigger] old_r[i]) as int],
            ) by {
                K::total(&ks[k as int], &ks[old_r[i] as int]);
            }
        }
        r.insert(p, k);
        proof {
            assert(r@ == old_r.insert(p as int, k));
            assert forall|i: int| 0 <= i < r@.len() implies #[trigger] r@[i] < k + 1 by {
                if i < p {
                    assert(r@[i] == old_r[i]);
                } else if i > p {
                    assert(r@[i] == old_r[i - 1]);
                }
            }
            assert forall|i: int, j: int| 0 <= i < j < r@.len() implies ks[(
            #[trigger] r@[i]) as int].no_later(&ks[(#[trigger] r@[j]) as int]) && (
            ks[r@[j] as int].no_later(&ks[r@[i] as int]) ==> r@[i] < r@[j]) by {
                let a: int = if i < p {
                    i
                } else {
                    i - 1
                };
                let b: int = if j < p {
                    j
                } else {
                    j - 1
                };
                if i != p {
                    assert(r@[i] == old_r[a]);
                }
                if j != p {
                    assert(r@[j] == old_r[b]);
                }
                if i != p && j != p {
                    assert(ks[old_r[a] as int].no_later(&ks[old_r[b] as int]));
                }
            }
            assert(r@.no_duplicates()) by {
                assert forall|i: int, j: int| 0 <= i < r@.len() && 0 <= j < r@.len() && i
                    != j implies r@[i] != r@[j] by {
                    let a: int = if i < p {
                        i
                    } else {
                        i - 1
                    };
                    let b: int = if j < p {
                        j
                    } else {
                        j - 1
                    };
                    if i != p {
                        assert(r@[i] == old_r[a]);
                    }
                    if j != p {
                        assert(r@[j] == old_r[b]);
                    }
                }
            }
        }
        k = k + 1;
    }
    r
}

/// A list of `n` indices below `n` without repetition holds them all.
pub proof fn lemma_all_listed(r: Seq<usize>, x: int)
    requires
        forall|i: int| 0 <= i < r.len() ==> 0 <= #[trigger] r[i] < r.len(),
        r.no_duplicates(),
        0 <= x < r.len(),
    ensures
        exists|i: int| 0 <= i < r.len() && #[trigger] r[i] == x,
{
    let s = r.map_values(|u: usize| u as int);
    assert(s.no_duplicates()) by {
        assert forall|i: int, j: int| 0 <= i < s.len() && 0 <= j < s.len() && i != j implies s[i]
            != s[j] by {
            assert(r[i] != r[j]);
        }
    }
    s.unique_seq_to_set();
    vstd::set_lib::lemma_int_range(0, r.len() as int);
    assert(s.to_set().subset_of(vstd::set_lib::set_int_range(0, r.len() as int))) by {
        assert forall|e: int| s.to_set().contains(e) implies vstd::set_lib::set_int_range(
            0,
            r.len() as int,
        ).contains(e) by {
            let i = choose|i: int| 0 <= i < s.len() && s[i] == e;
            assert(0 <= r[i] < r.len());
        }
    }
    vstd::set_lib::lemma_set_subset_finite(
        vstd::set_lib::set_int_range(0, r.len() as int),
        s.to_set(),
    );
    vstd::set_lib::lemma_subset_equality(
        s.to_set(),
        vstd::set_lib::set_int_range(0, r.len() as int),
    );
    assert(s.to_set().contains(x));
    let i = choose|i: int| 0 <= i < s.len() && s[i] == x;
    assert(r[i] == x);
}

/// Where two stable orders agree up to `k`, what stands at `k` in the first stands no earlier in
/// the second.
proof fn lemma_not_earlier<K: Ranked>(keys: Seq<K>, r: Seq<usize>, s: Seq<usize>, k: int) -> (p: int)
    requires
        stably_ordered(keys, r),
        stably_ordered(keys, s),
        0 <= k < r.len(),
        forall|i: int| 0 <= i < k ==> r[i] == #[trigger] s[i],
    ensures
        k <= p < s.len(),
        s[p] == r[k],
{
    lemma_all_listed(s, r[k] as int);
    let p = choose|i: int| 0 <= i < s.len() && #[trigger] s[i] == r[k];
    if p < k {
        assert(r[p] == s[p]);
        assert(r[p] != r[k]);
    }
    p
}

proof fn lemma_agree<K: Ranked>(keys: Seq<K>, r: Seq<usize>, s: Seq<usize>, k: int)
    requires
        stably_ordered(keys, r),
        stably_ordered(keys, s),
        0 <= k <= r.len(),
    ensures
        forall|i: int| 0 <= i < k ==> r[i] == #[trigger] s[i],
    decreases k,
{
    if k > 0 {
        lemma_agree(keys, r, s, k - 1);
        let p = lemma_not_earlier(keys, r, s, k - 1);
        let q = lemma_not_earlier(keys, s, r, k - 1);
        if p != k - 1 {
            assert(q != k - 1);
            assert(keys[s[k - 1] as int].no_later(&keys[s[p] as int]));
            assert(keys[r[k - 1] as int].no_later(&keys[r[q] as int]));
            assert(s[k - 1] < s[p]);
            assert(r[k - 1] < r[q]);
        }
    }
}

/// Law: there is one stable order.
pub proof fn law_stable_order_is_unique<K: Ranked>(keys: Seq<K>, r: Seq<usize>, s: Seq<usize>)
    requires
        stably_ordered(keys, r),
        stably_ordered(keys, s),
    ensures
        r == s,
{
    lemma_agree(keys, r, s, r.len() as int);
    assert(r =~= s);
}

/// The stable order of items by their keys.
pub open spec fn order_of<K: Ranked>(keys: Seq<K>) -> Seq<usize> {
    choose|r: Seq<usize>| stably_ordered(keys, r)
}

/// The indices of items in the stable order of their keys.
pub fn sorted_by<K: Ranked>(keys: &[K]) -> (r: Vec<usize>)
    ensures
        r@ == order_of(keys@),
        stably_ordered(keys@, r@),
{
    let r: Vec<usize> = stable_order(keys);
    proof {
        law_stable_order_is_unique(keys@, r@, order_of(keys@));
    }
    r
}

/// Law: numbers are put in order from the least to the greatest, and equal ones keep the order in which
/// they came.
pub proof fn law_numbers_ascend(keys: Seq<i64>, r: Seq<usize>, i: int, j: int)
    requires
        stably_ordered(keys, r),
        0 <= i < j < r.len(),
    ensures
        keys[r[i] as int] <= keys[r[j] as int],
        keys[r[i] as int] == keys[r[j] as int] ==> r[i] < r[j],
{
    assert(keys[r[i] as int].no_later(&keys[r[j] as int]));
}

/// Law: of two texts the one with the lower character where they first differ stands first, and a text
/// stands before every longer one that begins with it.
pub proof fn law_text_order(p: Seq<char>, x: char, s: Seq<char>, y: char, t: Seq<char>)
    requires
        x < y,
    ensures
        text_le(p.push(x) + s, p.push(y) + t),
        !text_le(p.push(y) + t, p.push(x) + s),
        text_le(p, p + s),
        s.len() > 0 ==> !text_le(p + s, p),
    decreases p.len(),
{
    let a = p.push(x) + s;
    let b = p.push(y) + t;
    if p.len() == 0 {
        assert(a[0] == x && b[0] == y);
    } else {
        law_text_order(p.skip(1), x, s, y, t);
        assert(a[0] == p[0] && b[0] == p[0]);
        assert(a.skip(1) =~= p.skip(1).push(x) + s);
        assert(b.skip(1) =~= p.skip(1).push(y) + t);
        assert((p + s).skip(1) =~= p.skip(1) + s);
    }
}

/// Law: texts are put in order as dictionaries do, and equal ones keep the order in which they came.
pub proof fn law_texts_ascend(keys: Seq<String>, r: Seq<usize>, i: int, j: int)
    requires
        stably_ordered(keys, r),
        0 <= i < j < r.len(),
    ensures
        text_le(keys[r[i] as int]@, keys[r[j] as int]@),
        keys[r[i] as int]@ == keys[r[j] as int]@ ==> r[i] < r[j],
{
    assert(keys[r[i] as int].no_later(&keys[r[j] as int]));
    lemma_text_total(keys[r[j] as int]@, keys[r[i] as int]@);
}

} // verus!
