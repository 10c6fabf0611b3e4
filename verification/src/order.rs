//! The order of texts (the order of `String`s: character by character) and
//! a sort of values by a text key.
use crate::text::chars_of;
use vstd::prelude::*;
use vstd::seq_lib::{to_multiset_build, to_multiset_insert};

verus! {

/// `a` comes before `b`: at the first character where they differ, `a`'s is
/// smaller, or `a` is a proper prefix of `b`.
pub open spec fn text_lt(a: Seq<char>, b: Seq<char>) -> bool
    decreases a.len(),
{
    if a.len() == 0 {
        b.len() > 0
    } else if b.len() == 0 {
        false
    } else if a[0] != b[0] {
        (a[0] as int) < (b[0] as int)
    } else {
        text_lt(a.drop_first(), b.drop_first())
    }
}

/// No text comes before itself, and of two texts at most one comes first.
pub proof fn lemma_text_lt_asymmetric(a: Seq<char>, b: Seq<char>)
    ensures
        text_lt(a, b) ==> !text_lt(b, a),
    decreases a.len(),
{
    if a.len() > 0 && b.len() > 0 && a[0] == b[0] {
        lemma_text_lt_asymmetric(a.drop_first(), b.drop_first());
    }
}

/// The order is transitive.
pub proof fn lemma_text_lt_transitive(a: Seq<char>, b: Seq<char>, c: Seq<char>)
    requires
        text_lt(a, b),
        text_lt(b, c),
    ensures
        text_lt(a, c),
    decreases a.len(),
{
    if a.len() > 0 && b.len() > 0 && c.len() > 0 && a[0] == b[0] && b[0] == c[0] {
        lemma_text_lt_transitive(a.drop_first(), b.drop_first(), c.drop_first());
    }
}

/// Two different texts are ordered one way or the other.
pub proof fn lemma_text_lt_total(a: Seq<char>, b: Seq<char>)
    requires
        a != b,
    ensures
        text_lt(a, b) || text_lt(b, a),
    decreases a.len(),
{
    if a.len() == 0 && b.len() == 0 {
        assert(a =~= b);
    }
    if a.len() > 0 && b.len() > 0 && a[0] == b[0] {
        if a.drop_first() == b.drop_first() {
            assert(a =~= seq![a[0]] + a.drop_first());
            assert(b =~= seq![b[0]] + b.drop_first());
        }
        lemma_text_lt_total(a.drop_first(), b.drop_first());
    }
}

/// Whether `a` comes before `b`.
pub fn text_less(a: &str, b: &str) -> (r: bool)
    ensures
        r == text_lt(a@, b@),
{
    let x = chars_of(a);
    let y = chars_of(b);
    let mut i: usize = 0;
    proof {
        assert(a@.skip(0) =~= a@);
        assert(b@.skip(0) =~= b@);
    }
    while i < x.len() && i < y.len() && x[i] == y[i]
        invariant
            i <= x@.len(),
            i <= y@.len(),
            x@ == a@,
            y@ == b@,
            text_lt(a@, b@) == text_lt(a@.skip(i as int), b@.skip(i as int)),
        decreases x@.len() - i,
    {
        proof {
            assert(a@.skip(i as int).drop_first() =~= a@.skip(i + 1));
            assert(b@.skip(i as int).drop_first() =~= b@.skip(i + 1));
        }
        i = i + 1;
    }
    if i == x.len() {
        i < y.len()
    } else if i == y.len() {
        false
    } else {
        x[i] < y[i]
    }
}

/// Values ordered by a text.
pub trait TextKeyed {
    /// The text by which the value is ordered.
    spec fn key_view(&self) -> Seq<char>;

    /// The text by which the value is ordered.
    fn key_text(&self) -> (r: &str)
        ensures
            r@ == self.key_view(),
    ;
}

impl TextKeyed for String {
    open spec fn key_view(&self) -> Seq<char> {
        self@
    }

    fn key_text(&self) -> (r: &str) {
        self.as_str()
    }
}

/// No value comes after one that follows it.
pub open spec fn key_sorted<T: TextKeyed>(s: Seq<T>) -> bool {
    forall|a: int, b: int| 0 <= a < b < s.len() ==> !text_lt(#[trigger] s[b].key_view(), #[trigger] s[a].key_view())
}

/// The texts of the values, in order.
pub open spec fn keys_of<T: TextKeyed>(s: Seq<T>) -> Seq<Seq<char>> {
    s.map_values(|x: T| x.key_view())
}

/// The values of `v`, ordered by their texts.
pub fn sort_by_text<T: TextKeyed>(v: Vec<T>) -> (r: Vec<T>)
    ensures
        key_sorted(r@),
        r@.to_multiset() == v@.to_multiset(),
        keys_of(r@).to_multiset() == keys_of(v@).to_multiset(),
{
    let ghost orig = v@;
    let n = v.len();
    let mut rest: Vec<T> = Vec::new();
    let mut src = v;
    proof {
        assert(orig.take(n as int) =~= orig);
    }
    while src.len() > 0
        invariant
            n == orig.len(),
            src@ == orig.take(src@.len() as int),
            rest@.len() + src@.len() == n,
            forall|k: int| 0 <= k < rest@.len() ==> #[trigger] rest@[k] == orig[n - 1 - k],
        decreases src@.len(),
    {
        let e = src.pop().unwrap();
        rest.push(e);
    }
    let mut out: Vec<T> = Vec::new();
    proof {
        assert(orig.take(0) =~= Seq::<T>::empty());
    }
    while rest.len() > 0
        invariant
            n == orig.len(),
            out@.len() + rest@.len() == n,
            forall|k: int| 0 <= k < rest@.len() ==> #[trigger] rest@[k] == orig[n - 1 - k],
            key_sorted(out@),
            out@.to_multiset() == orig.take(out@.len() as int).to_multiset(),
            keys_of(out@).to_multiset() == keys_of(orig.take(out@.len() as int)).to_multiset(),
        decreases rest@.len(),
    {
        let ghost m = out@.len() as int;
        let e = rest.pop().unwrap();
        proof {
            assert(e == orig[m]);
        }
        let mut p: usize = 0;
        while p < out.len() && !text_less(e.key_text(), out[p].key_text())
            invariant
                p <= out@.len(),
                forall|k: int| 0 <= k < p ==> !text_lt(e.key_view(), #[trigger] out@[k].key_view()),
            decreases out@.len() - p,
        {
            p = p + 1;
        }
        let ghost before = out@;
        out.insert(p, e);
        proof {
            let after = out@;
            assert(after =~= before.insert(p as int, e));
            assert forall|a: int, b: int| 0 <= a < b < after.len() implies !text_lt(
                #[trigger] after[b].key_view(),
                #[trigger] after[a].key_view(),
            ) by {
                if b < p {
                    assert(after[a] == before[a] && after[b] == before[b]);
                } else if b == p {
                    assert(after[a] == before[a]);
                } else if a < p {
                    assert(after[a] == before[a] && after[b] == before[b - 1]);
                } else if a == p {
                    assert(after[b] == before[b - 1]);
                    let x = e.key_view();
                    let q = before[p as int].key_view();
                    let z = before[b - 1].key_view();
                    assert(text_lt(x, q));
                    if b - 1 > p {
                        assert(!text_lt(z, q));
                    }
                    if text_lt(z, x) {
                        lemma_text_lt_transitive(z, x, q);
                        if b - 1 == p {
                            lemma_text_lt_asymmetric(z, z);
                        }
                    }
                } else {
                    assert(after[a] == before[a - 1] && after[b] == before[b - 1]);
                }
            }
            to_multiset_insert(before, p as int, e);
            assert(orig.take(m + 1) =~= orig.take(m).push(orig[m]));
            to_multiset_build(orig.take(m), orig[m]);
            assert(keys_of(after) =~= keys_of(before).insert(p as int, e.key_view()));
            to_multiset_insert(keys_of(before), p as int, e.key_view());
            assert(keys_of(orig.take(m + 1)) =~= keys_of(orig.take(m)).push(orig[m].key_view()));
            to_multiset_build(keys_of(orig.take(m)), orig[m].key_view());
        }
    }
    proof {
        assert(orig.take(n as int) =~= orig);
    }
    out
}

} // verus!
