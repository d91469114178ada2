//! The order in which status lists are shown: text keys compared
//! character by character, and a stable insertion sort by such a key.

use vstd::prelude::*;
use vstd::multiset::Multiset;

verus! {

broadcast use vstd::seq_lib::group_to_multiset_ensures;

/// Strict lexicographic order on text by character. This is the order
/// of `str` comparison: UTF-8 keeps the order of code points.
pub open spec fn text_lt(a: Seq<char>, b: Seq<char>) -> bool
    decreases a.len(),
{
    if a.len() == 0 {
        b.len() > 0
    } else if b.len() == 0 {
        false
    } else if a[0] != b[0] {
        a[0] < b[0]
    } else {
        text_lt(a.drop_first(), b.drop_first())
    }
}

/// `a` comes no later than `b`.
pub open spec fn text_le(a: Seq<char>, b: Seq<char>) -> bool {
    !text_lt(b, a)
}

/// The order is strict: no text comes before itself, and of two texts
/// at most one comes first.
pub proof fn lemma_text_lt_asymmetric(a: Seq<char>, b: Seq<char>)
    ensures
        text_lt(a, b) ==> !text_lt(b, a),
        !text_lt(a, a),
    decreases a.len(),
{
    if a.len() > 0 && b.len() > 0 && a[0] == b[0] {
        lemma_text_lt_asymmetric(a.drop_first(), b.drop_first());
    }
    if a.len() > 0 {
        lemma_text_lt_asymmetric(a.drop_first(), a.drop_first());
    }
}

/// Two texts that neither comes before are equal.
pub proof fn lemma_text_lt_total(a: Seq<char>, b: Seq<char>)
    ensures
        !text_lt(a, b) && !text_lt(b, a) ==> a == b,
    decreases a.len(),
{
    if a.len() > 0 && b.len() > 0 && a[0] == b[0] {
        lemma_text_lt_total(a.drop_first(), b.drop_first());
        if a.drop_first() == b.drop_first() {
            assert(a =~= seq![a[0]] + a.drop_first());
            assert(b =~= seq![b[0]] + b.drop_first());
        }
    }
    if a.len() == 0 && b.len() == 0 {
        assert(a =~= b);
    }
}

/// The order is transitive.
pub proof fn lemma_text_lt_transitive(a: Seq<char>, b: Seq<char>, c: Seq<char>)
    ensures
        text_lt(a, b) && text_lt(b, c) ==> text_lt(a, c),
    decreases a.len(),
{
    if a.len() > 0 && b.len() > 0 && c.len() > 0 {
        lemma_text_lt_transitive(a.drop_first(), b.drop_first(), c.drop_first());
    }
}

/// `text_le` is a total preorder that agrees with equality.
pub proof fn lemma_text_le_transitive(a: Seq<char>, b: Seq<char>, c: Seq<char>)
    ensures
        text_le(a, b) && text_le(b, c) ==> text_le(a, c),
{
    lemma_text_lt_total(a, b);
    lemma_text_lt_total(b, c);
    lemma_text_lt_transitive(a, b, c);
    lemma_text_lt_asymmetric(a, c);
    lemma_text_lt_asymmetric(a, b);
    lemma_text_lt_asymmetric(b, c);
    lemma_text_lt_transitive(c, a, b);
    lemma_text_lt_transitive(b, c, a);
}

proof fn lemma_text_lt_skip(a: Seq<char>, b: Seq<char>, i: int)
    requires
        0 <= i <= a.len(),
        i <= b.len(),
        a.take(i) == b.take(i),
    ensures
        text_lt(a, b) == text_lt(a.skip(i), b.skip(i)),
    decreases i,
{
    if i > 0 {
        assert(a[0] == a.take(i)[0]);
        assert(b[0] == b.take(i)[0]);
        assert(a.drop_first().take(i - 1) =~= a.take(i).drop_first());
        assert(b.drop_first().take(i - 1) =~= b.take(i).drop_first());
        lemma_text_lt_skip(a.drop_first(), b.drop_first(), i - 1);
        assert(a.drop_first().skip(i - 1) =~= a.skip(i));
        assert(b.drop_first().skip(i - 1) =~= b.skip(i));
    } else {
        assert(a.skip(0) =~= a);
        assert(b.skip(0) =~= b);
    }
}

/// Whether `a` comes strictly before `b`.
pub fn chars_lt(a: &Vec<char>, b: &Vec<char>) -> (r: bool)
    ensures
        r == text_lt(a@, b@),
{
    let mut i: usize = 0;
    while i < a.len() && i < b.len() && a[i] == b[i]
        invariant
            i <= a.len(),
            i <= b.len(),
            a@.take(i as int) == b@.take(i as int),
        decreases a.len() - i,
    {
        assert(a@.take(i + 1) =~= a@.take(i as int).push(a@[i as int]));
        assert(b@.take(i + 1) =~= b@.take(i as int).push(b@[i as int]));
        i = i + 1;
    }
    proof {
        lemma_text_lt_skip(a@, b@, i as int);
    }
    if i == a.len() {
        i < b.len()
    } else if i == b.len() {
        false
    } else {
        proof {
            assert(a@.skip(i as int)[0] == a@[i as int]);
            assert(b@.skip(i as int)[0] == b@[i as int]);
        }
        a[i] < b[i]
    }
}

/// A value with a text key that lists are ordered by.
pub trait Keyed {
    spec fn sort_key(&self) -> Seq<char>;

    fn key_chars(&self) -> (r: Vec<char>)
        ensures
            r@ == self.sort_key(),
    ;
}

/// Every item's key is no later than the keys of the items after it.
pub open spec fn sorted_by_key<T: Keyed>(s: Seq<T>) -> bool {
    forall|i: int, j: int| 0 <= i < j < s.len() ==> text_le(#[trigger] s[i].sort_key(), #[trigger] s[j].sort_key())
}

/// Where an item with key `k` goes in a list sorted by key: after every
/// item whose key is no later than `k`, so that equal keys keep the
/// order in which they came.
fn insert_position<T: Keyed>(out: &Vec<T>, k: &Vec<char>) -> (p: usize)
    requires
        sorted_by_key(out@),
    ensures
        p <= out.len(),
        forall|j: int| 0 <= j < p ==> text_le(#[trigger] out@[j].sort_key(), k@),
        forall|j: int| p <= j < out.len() ==> text_lt(k@, #[trigger] out@[j].sort_key()),
{
    let mut p: usize = out.len();
    while p > 0
        invariant
            p <= out.len(),
            sorted_by_key(out@),
            forall|j: int| p <= j < out.len() ==> text_lt(k@, #[trigger] out@[j].sort_key()),
        decreases p,
    {
        let kp = out[p - 1].key_chars();
        if chars_lt(k, &kp) {
            p = p - 1;
        } else {
            assert forall|j: int| 0 <= j < p implies text_le(#[trigger] out@[j].sort_key(), k@) by {
                if j < p - 1 {
                    lemma_text_le_transitive(out@[j].sort_key(), out@[p - 1].sort_key(), k@);
                }
            }
            return p;
        }
    }
    p
}

/// The items whose key is `k`.
pub open spec fn key_is<T: Keyed>(k: Seq<char>) -> spec_fn(T) -> bool {
    |x: T| x.sort_key() == k
}

proof fn lemma_filter_none<T: Keyed>(s: Seq<T>, k: Seq<char>)
    requires
        forall|i: int| 0 <= i < s.len() ==> (#[trigger] s[i]).sort_key() != k,
    ensures
        s.filter(key_is(k)) == Seq::<T>::empty(),
    decreases s.len(),
{
    reveal(Seq::filter);
    if s.len() > 0 {
        assert forall|i: int| 0 <= i < s.drop_last().len() implies (#[trigger] s.drop_last()[i]).sort_key() != k by {
            assert(s.drop_last()[i] == s[i]);
        }
        lemma_filter_none(s.drop_last(), k);
        assert(s[s.len() - 1].sort_key() != k);
    }
}

/// Sorts the list by key, stably, as `sort_by` on the key does: the items
/// of each key keep their order.
pub fn sort_by_key<T: Keyed>(v: &mut Vec<T>)
    ensures
        sorted_by_key(final(v)@),
        final(v)@.to_multiset() == old(v)@.to_multiset(),
        forall|k: Seq<char>| #[trigger] final(v)@.filter(key_is(k)) == old(v)@.filter(key_is(k)),
{
    let mut out: Vec<T> = Vec::new();
    let ghost orig = v@;
    while v.len() > 0
        invariant
            sorted_by_key(out@),
            out@.to_multiset().add(v@.to_multiset()) == orig.to_multiset(),
            forall|k: Seq<char>| #[trigger] orig.filter(key_is(k)) == out@.filter(key_is(k)) + v@.filter(key_is(k)),
        decreases v.len(),
    {
        let ghost before_v = v@;
        let ghost before_out = out@;
        let x = v.remove(0);
        let k = x.key_chars();
        let p = insert_position(&out, &k);
        out.insert(p, x);
        proof {
            assert(out@.remove(p as int) =~= before_out);
            assert(out@[p as int] == x);
            assert(before_v.remove(0) =~= v@);
            assert(before_v[0] == x);
            assert(out@.to_multiset() =~= before_out.to_multiset().insert(x));
            assert(before_v.to_multiset() =~= v@.to_multiset().insert(x));
            assert(out@.to_multiset().add(v@.to_multiset()) =~= orig.to_multiset());
            assert(before_v =~= seq![x] + v@);
            assert(out@ =~= before_out.take(p as int) + seq![x] + before_out.skip(p as int));
            assert(before_out =~= before_out.take(p as int) + before_out.skip(p as int));
            assert forall|kk: Seq<char>| #[trigger] orig.filter(key_is(kk)) == out@.filter(key_is(kk)) + v@.filter(key_is(kk)) by {
                let f = key_is::<T>(kk);
                let a = before_out.take(p as int);
                let b = before_out.skip(p as int);
                v@.lemma_filter_prepend(x, f);
                Seq::filter_distributes_over_add(a + seq![x], b, f);
                Seq::filter_distributes_over_add(a, seq![x], f);
                Seq::filter_distributes_over_add(a, b, f);
                seq![x].lemma_filter_prepend(x, f);
                Seq::<T>::empty().lemma_filter_prepend(x, f);
                assert(seq![x] =~= seq![x] + Seq::<T>::empty());
                reveal(Seq::filter);
                assert(Seq::<T>::empty().filter(f) =~= Seq::<T>::empty());
                if x.sort_key() == kk {
                    assert forall|i: int| 0 <= i < b.len() implies (#[trigger] b[i]).sort_key() != kk by {
                        assert(b[i] == before_out[p + i]);
                        lemma_text_lt_asymmetric(k@, b[i].sort_key());
                    }
                    lemma_filter_none(b, kk);
                    assert(out@.filter(f) =~= a.filter(f) + seq![x]);
                    assert(before_out.filter(f) =~= a.filter(f));
                } else {
                    assert(seq![x].filter(f) =~= Seq::<T>::empty());
                    assert(out@.filter(f) =~= a.filter(f) + b.filter(f));
                }
            }
            assert forall|i: int, j: int| 0 <= i < j < out@.len() implies text_le(
                #[trigger] out@[i].sort_key(),
                #[trigger] out@[j].sort_key(),
            ) by {
                if i < p && j > p {
                    assert(out@[i] == before_out[i]);
                    assert(out@[j] == before_out[j - 1]);
                    lemma_text_lt_asymmetric(k@, out@[j].sort_key());
                    lemma_text_le_transitive(out@[i].sort_key(), k@, out@[j].sort_key());
                } else if i == p {
                    assert(out@[j] == before_out[j - 1]);
                    lemma_text_lt_asymmetric(k@, out@[j].sort_key());
                } else if j == p {
                    assert(out@[i] == before_out[i]);
                } else if i > p {
                    assert(out@[i] == before_out[i - 1]);
                    assert(out@[j] == before_out[j - 1]);
                } else {
                    assert(out@[i] == before_out[i]);
                    if j < p {
                        assert(out@[j] == before_out[j]);
                    } else {
                        assert(out@[j] == before_out[j - 1]);
                    }
                }
            }
        }
    }
    proof {
        assert(v@.to_multiset() =~= Multiset::empty());
        assert(out@.to_multiset().add(Multiset::empty()) =~= out@.to_multiset());
        reveal(Seq::filter);
        assert forall|k: Seq<char>| #[trigger] out@.filter(key_is(k)) == orig.filter(key_is(k)) by {
            assert(v@ =~= Seq::<T>::empty());
            assert(v@.filter(key_is(k)) =~= Seq::<T>::empty());
            assert(out@.filter(key_is(k)) + Seq::<T>::empty() =~= out@.filter(key_is(k)));
        }
    }
    *v = out;
}

} // verus!
