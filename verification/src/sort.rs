//! A stable insertion sort over values keyed by a string.
//!
//! Both the playlist writer (tracks ordered by raw file line) and the
//! directory aggregator (rows ordered by directory name) sort by a string in
//! plain codepoint order. The sort is pinned to a deterministic specification
//! function, so two runs on equal inputs give equal outputs.

use vstd::prelude::*;
use crate::strings::{lex_le, lemma_lex_le_total, lemma_lex_le_trans, str_lex_le};

verus! {

/// A value ordered by a string key.
pub trait SortKey: Sized {
    /// The key the value is ordered by.
    spec fn key(self) -> Seq<char>;

    /// Decides `lex_le` on the keys of two values.
    fn key_le(&self, other: &Self) -> (r: bool)
        ensures
            r == lex_le(self.key(), other.key()),
    ;
}

impl SortKey for String {
    /// A string is its own key.
    open spec fn key(self) -> Seq<char> {
        self@
    }

    fn key_le(&self, other: &Self) -> (r: bool)
        ensures
            r == lex_le(self.key(), other.key()),
    {
        str_lex_le(self.as_str(), other.as_str())
    }
}

/// Places `t` after every leading element whose key is at most `t`'s key;
/// stable, since a tie keeps the earlier element first.
pub open spec fn insert_in_order<T: SortKey>(t: T, s: Seq<T>) -> Seq<T>
    decreases s.len(),
{
    if s.len() == 0 {
        seq![t]
    } else if lex_le(s[0].key(), t.key()) {
        seq![s[0]] + insert_in_order(t, s.drop_first())
    } else {
        seq![t] + s
    }
}

/// The unique output of a stable insertion sort of `s` by key.
pub open spec fn sort_by_key_spec<T: SortKey>(s: Seq<T>) -> Seq<T>
    decreases s.len(),
{
    if s.len() == 0 {
        Seq::empty()
    } else {
        insert_in_order(s.last(), sort_by_key_spec(s.drop_last()))
    }
}

/// The keys of `s` appear in ascending order.
pub open spec fn sorted_by_key<T: SortKey>(s: Seq<T>) -> bool {
    forall|i: int, j: int| 0 <= i < j < s.len() ==> lex_le(s[i].key(), s[j].key())
}

/// Inserting in order keeps a sorted sequence sorted.
proof fn lemma_insert_in_order_sorted<T: SortKey>(t: T, s: Seq<T>)
    requires
        sorted_by_key(s),
    ensures
        sorted_by_key(insert_in_order(t, s)),
    decreases s.len(),
{
    if s.len() == 0 {
    } else if lex_le(s[0].key(), t.key()) {
        assert(sorted_by_key(s.drop_first()));
        lemma_insert_in_order_sorted(t, s.drop_first());
        let r = seq![s[0]] + insert_in_order(t, s.drop_first());
        assert forall|i: int, j: int| 0 <= i < j < r.len() implies lex_le(
            r[i].key(),
            r[j].key(),
        ) by {
            let rr = insert_in_order(t, s.drop_first());
            if i == 0 {
                lemma_insert_head_key(t, s.drop_first());
                let x = rr[j - 1];
                assert(r[j] == x);
                if x == t {
                } else {
                    assert(s.drop_first().contains(x));
                    let m = choose|m: int|
                        0 <= m < s.drop_first().len() && s.drop_first()[m] == x;
                    assert(s[m + 1] == x);
                    assert(lex_le(s[0].key(), s[m + 1].key()));
                }
            } else {
                assert(r[i] == rr[i - 1]);
                assert(r[j] == rr[j - 1]);
            }
        }
    } else {
        lemma_lex_le_total(s[0].key(), t.key());
        let r = seq![t] + s;
        assert forall|i: int, j: int| 0 <= i < j < r.len() implies lex_le(
            r[i].key(),
            r[j].key(),
        ) by {
            if i == 0 && j > 1 {
                lemma_lex_le_trans(t.key(), s[0].key(), s[j - 1].key());
            }
        }
    }
}

/// Every element of `insert_in_order(t, s)` is `t` or an element of `s`.
proof fn lemma_insert_head_key<T: SortKey>(t: T, s: Seq<T>)
    ensures
        forall|k: int|
            0 <= k < insert_in_order(t, s).len() ==> insert_in_order(t, s)[k] == t
                || s.contains(#[trigger] insert_in_order(t, s)[k]),
    decreases s.len(),
{
    if s.len() == 0 {
    } else if lex_le(s[0].key(), t.key()) {
        lemma_insert_head_key(t, s.drop_first());
        let r = insert_in_order(t, s);
        let rr = insert_in_order(t, s.drop_first());
        assert forall|k: int| 0 <= k < r.len() implies r[k] == t || s.contains(
            #[trigger] r[k],
        ) by {
            if k == 0 {
                assert(s.contains(s[0]));
            } else {
                assert(r[k] == rr[k - 1]);
                if rr[k - 1] == t {
                } else {
                    let m = choose|m: int| 0 <= m < s.drop_first().len() && s.drop_first()[m]
                        == rr[k - 1];
                    assert(s[m + 1] == rr[k - 1]);
                }
            }
        }
    } else {
        assert forall|k: int|
            0 <= k < insert_in_order(t, s).len() implies insert_in_order(t, s)[k] == t
            || s.contains(#[trigger] insert_in_order(t, s)[k]) by {
            if k > 0 {
                assert(insert_in_order(t, s)[k] == s[k - 1]);
                assert(s.contains(s[k - 1]));
            }
        }
    }
}

/// The sort's output is in ascending key order, whatever the input.
pub proof fn lemma_sort_by_key_sorted<T: SortKey>(s: Seq<T>)
    ensures
        sorted_by_key(sort_by_key_spec(s)),
    decreases s.len(),
{
    if s.len() > 0 {
        lemma_sort_by_key_sorted(s.drop_last());
        lemma_insert_in_order_sorted(s.last(), sort_by_key_spec(s.drop_last()));
    }
}

/// Inserting in order adds exactly one occurrence of `t`.
proof fn lemma_insert_in_order_multiset<T: SortKey>(t: T, s: Seq<T>)
    ensures
        insert_in_order(t, s).to_multiset() == s.to_multiset().insert(t),
    decreases s.len(),
{
    broadcast use vstd::seq_lib::group_to_multiset_ensures;

    if s.len() == 0 {
        assert(seq![t] =~= Seq::empty().push(t));
        assert(Seq::<T>::empty().push(t).to_multiset() =~= Seq::<T>::empty().to_multiset().insert(
            t,
        ));
        assert(insert_in_order(t, s).to_multiset() =~= s.to_multiset().insert(t));
    } else if lex_le(s[0].key(), t.key()) {
        lemma_insert_in_order_multiset(t, s.drop_first());
        let rr = insert_in_order(t, s.drop_first());
        vstd::seq_lib::lemma_multiset_commutative(seq![s[0]], rr);
        vstd::seq_lib::lemma_multiset_commutative(seq![s[0]], s.drop_first());
        assert(seq![s[0]] + s.drop_first() =~= s);
        assert(seq![s[0]].to_multiset().add(s.drop_first().to_multiset().insert(t))
            =~= seq![s[0]].to_multiset().add(s.drop_first().to_multiset()).insert(t));
        assert(insert_in_order(t, s).to_multiset() =~= s.to_multiset().insert(t));
    } else {
        vstd::seq_lib::lemma_multiset_commutative(seq![t], s);
        assert(seq![t] =~= Seq::empty().push(t));
        assert(Seq::<T>::empty().push(t).to_multiset() =~= Seq::<T>::empty().to_multiset().insert(
            t,
        ));
        assert(seq![t].to_multiset().add(s.to_multiset()) =~= s.to_multiset().insert(t));
        assert(insert_in_order(t, s).to_multiset() =~= s.to_multiset().insert(t));
    }
}

/// The sort is a permutation: it keeps exactly the elements of its input.
pub proof fn lemma_sort_by_key_multiset<T: SortKey>(s: Seq<T>)
    ensures
        sort_by_key_spec(s).to_multiset() == s.to_multiset(),
    decreases s.len(),
{
    broadcast use vstd::seq_lib::group_to_multiset_ensures;

    if s.len() > 0 {
        lemma_sort_by_key_multiset(s.drop_last());
        lemma_insert_in_order_multiset(s.last(), sort_by_key_spec(s.drop_last()));
        assert(s =~= s.drop_last().push(s.last()));
        assert(s.drop_last().push(s.last()).to_multiset() =~= s.drop_last().to_multiset().insert(
            s.last(),
        ));
    }
}

/// When the first `p` elements of `s` have keys at most `t`'s key and the
/// element at `p` (if any) does not, inserting in order lands exactly at `p`.
proof fn lemma_insert_at<T: SortKey>(t: T, s: Seq<T>, p: int)
    requires
        0 <= p <= s.len(),
        forall|k: int| 0 <= k < p ==> lex_le(#[trigger] s[k].key(), t.key()),
        p < s.len() ==> !lex_le(s[p].key(), t.key()),
    ensures
        insert_in_order(t, s) =~= s.subrange(0, p) + seq![t] + s.subrange(p, s.len() as int),
    decreases s.len(),
{
    if s.len() == 0 {
    } else if p == 0 {
    } else {
        assert forall|k: int| 0 <= k < p - 1 implies lex_le(
            #[trigger] s.drop_first()[k].key(),
            t.key(),
        ) by {
            assert(s.drop_first()[k] == s[k + 1]);
        }
        lemma_insert_at(t, s.drop_first(), p - 1);
    }
}

/// Sorts `input` by key with a stable insertion sort.
pub fn sort_by_key<T: SortKey>(input: Vec<T>) -> (res: Vec<T>)
    ensures
        res@ == sort_by_key_spec(input@),
{
    let ghost orig = input@;
    let mut rest = input;
    let mut res: Vec<T> = Vec::new();
    let mut i: usize = 0;
    let n = rest.len();
    while i < n
        invariant
            i <= n,
            n == orig.len(),
            rest@ =~= orig.skip(i as int),
            res@ == sort_by_key_spec(orig.take(i as int)),
        decreases n - i,
    {
        let t = rest.remove(0);
        proof {
            assert(t == orig[i as int]);
        }
        let mut p: usize = 0;
        loop
            invariant
                p <= res@.len(),
                forall|k: int| 0 <= k < p ==> lex_le(#[trigger] res@[k].key(), t.key()),
            ensures
                p <= res@.len(),
                forall|k: int| 0 <= k < p ==> lex_le(#[trigger] res@[k].key(), t.key()),
                p < res@.len() ==> !lex_le(res@[p as int].key(), t.key()),
            decreases res@.len() - p,
        {
            if p == res.len() {
                break;
            }
            if !res[p].key_le(&t) {
                break;
            }
            p = p + 1;
        }
        proof {
            lemma_insert_at(t, res@, p as int);
            assert(orig.take(i as int + 1).drop_last() =~= orig.take(i as int));
            assert(orig.take(i as int + 1).last() == orig[i as int]);
            assert(res@.subrange(0, p as int) + seq![t] + res@.subrange(
                p as int,
                res@.len() as int,
            ) =~= res@.insert(p as int, t));
        }
        res.insert(p, t);
        proof {
            assert(rest@ =~= orig.skip(i as int + 1));
        }
        i = i + 1;
    }
    proof {
        assert(orig.take(n as int) =~= orig);
    }
    res
}

} // verus!
