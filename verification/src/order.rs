//! Sorting by identifier. Migration files apply in the lexicographic order
//! of their identifiers; ledger rows are read unordered and sorted before
//! reconciliation. The sort is a stable insertion sort, specified exactly.

use vstd::prelude::*;

use crate::text::{chars_le, lemma_chars_le_total, lemma_chars_le_trans, str_le};

verus! {

/// A value ordered by an identifier drawn from its fields.
pub trait OrderedById: Sized {
    /// The identifier the order is taken over.
    spec fn order_id(self) -> Seq<char>;

    /// Decides the order between two values.
    fn id_le(&self, other: &Self) -> (r: bool)
        ensures
            r == chars_le(self.order_id(), other.order_id()),
    ;
}

/// Stable insertion of `m` into `s`: `m` goes after every element whose
/// identifier is less than or equal to its own.
pub open spec fn insert_ordered<T: OrderedById>(m: T, s: Seq<T>) -> Seq<T>
    decreases s.len(),
{
    if s.len() == 0 {
        seq![m]
    } else if chars_le(s[0].order_id(), m.order_id()) {
        seq![s[0]] + insert_ordered(m, s.drop_first())
    } else {
        seq![m] + s
    }
}

/// Stable insertion sort of `s` by identifier.
pub open spec fn sort_ordered<T: OrderedById>(s: Seq<T>) -> Seq<T>
    decreases s.len(),
{
    if s.len() == 0 {
        s
    } else {
        insert_ordered(s.last(), sort_ordered(s.drop_last()))
    }
}

/// The identifiers of `s` are in ascending order.
pub open spec fn sorted_by_id<T: OrderedById>(s: Seq<T>) -> bool {
    forall|i: int, j: int|
        0 <= i < j < s.len() ==> chars_le(s[i].order_id(), s[j].order_id())
}

/// Insertion grows the length by one.
proof fn lemma_insert_len<T: OrderedById>(m: T, s: Seq<T>)
    ensures
        insert_ordered(m, s).len() == s.len() + 1,
    decreases s.len(),
{
    if s.len() != 0 && chars_le(s[0].order_id(), m.order_id()) {
        lemma_insert_len(m, s.drop_first());
    }
}

/// Sorting keeps the length.
pub proof fn lemma_sort_len<T: OrderedById>(s: Seq<T>)
    ensures
        sort_ordered(s).len() == s.len(),
    decreases s.len(),
{
    if s.len() != 0 {
        lemma_sort_len(s.drop_last());
        lemma_insert_len(s.last(), sort_ordered(s.drop_last()));
    }
}

/// Inserting at the position the exec search finds is the specified
/// insertion.
proof fn lemma_insert_at<T: OrderedById>(s: Seq<T>, m: T, j: int)
    requires
        0 <= j <= s.len(),
        forall|k: int| 0 <= k < j ==> chars_le(#[trigger] s[k].order_id(), m.order_id()),
        j < s.len() ==> !chars_le(s[j].order_id(), m.order_id()),
    ensures
        insert_ordered(m, s) == s.insert(j, m),
    decreases j,
{
    if j == 0 {
        if s.len() == 0 {
            assert(seq![m] =~= s.insert(0, m));
        } else {
            assert(seq![m] + s =~= s.insert(0, m));
        }
    } else {
        assert(chars_le(s[0].order_id(), m.order_id()));
        let rest = s.drop_first();
        assert(forall|k: int|
            0 <= k < j - 1 ==> chars_le(#[trigger] rest[k].order_id(), m.order_id()));
        lemma_insert_at(rest, m, j - 1);
        assert(seq![s[0]] + rest.insert(j - 1, m) =~= s.insert(j, m));
    }
}

/// Inserting an element not below any element of `s` appends it.
proof fn lemma_insert_append<T: OrderedById>(m: T, s: Seq<T>)
    requires
        forall|i: int| 0 <= i < s.len() ==> chars_le(#[trigger] s[i].order_id(), m.order_id()),
    ensures
        insert_ordered(m, s) == s.push(m),
    decreases s.len(),
{
    if s.len() == 0 {
        assert(seq![m] =~= s.push(m));
    } else {
        let rest = s.drop_first();
        assert(forall|i: int|
            0 <= i < rest.len() ==> chars_le(#[trigger] rest[i].order_id(), m.order_id()));
        lemma_insert_append(m, rest);
        assert(seq![s[0]] + rest.push(m) =~= s.push(m));
    }
}

/// Insertion into a sorted sequence keeps it sorted.
proof fn lemma_insert_sorted<T: OrderedById>(m: T, s: Seq<T>)
    requires
        sorted_by_id(s),
    ensures
        sorted_by_id(insert_ordered(m, s)),
    decreases s.len(),
{
    if s.len() == 0 {
    } else if chars_le(s[0].order_id(), m.order_id()) {
        let rest = s.drop_first();
        assert(sorted_by_id(rest)) by {
            assert(forall|i: int, j: int|
                0 <= i < j < rest.len() ==> chars_le(
                    #[trigger] rest[i].order_id(),
                    #[trigger] rest[j].order_id(),
                )) by {
                assert(forall|i: int, j: int|
                    0 <= i < j < rest.len() ==> rest[i] == s[i + 1] && rest[j] == s[j + 1]);
            }
        }
        lemma_insert_sorted(m, rest);
        lemma_insert_len(m, rest);
        let out = insert_ordered(m, s);
        let inner = insert_ordered(m, rest);
        assert forall|i: int, j: int| 0 <= i < j < out.len() implies chars_le(
            out[i].order_id(),
            out[j].order_id(),
        ) by {
            assert(out[0] == s[0]);
            assert(forall|k: int| 1 <= k < out.len() ==> out[k] == inner[k - 1]);
            if i == 0 {
                // every element of the inner insertion is either m or an
                // element of rest, both of which s[0] precedes
                lemma_insert_at_elements(m, rest, j - 1);
                if inner[j - 1] != m {
                    let k = choose|k: int| 0 <= k < rest.len() && inner[j - 1] == rest[k];
                    assert(rest[k] == s[k + 1]);
                    assert(chars_le(s[0].order_id(), s[k + 1].order_id()));
                }
            }
        }
    } else {
        lemma_chars_le_total(s[0].order_id(), m.order_id());
        let out = insert_ordered(m, s);
        assert(out =~= seq![m] + s);
        assert forall|i: int, j: int| 0 <= i < j < out.len() implies chars_le(
            out[i].order_id(),
            out[j].order_id(),
        ) by {
            if i == 0 {
                if j > 1 {
                    lemma_chars_le_trans(
                        m.order_id(),
                        s[0].order_id(),
                        s[j - 1].order_id(),
                    );
                }
            }
        }
    }
}

/// Every element of an insertion result is the inserted element or one of
/// the original elements.
proof fn lemma_insert_at_elements<T: OrderedById>(m: T, s: Seq<T>, i: int)
    requires
        0 <= i < insert_ordered(m, s).len(),
    ensures
        insert_ordered(m, s)[i] == m || exists|k: int|
            0 <= k < s.len() && insert_ordered(m, s)[i] == s[k],
    decreases s.len(),
{
    lemma_insert_len(m, s);
    if s.len() == 0 {
    } else if chars_le(s[0].order_id(), m.order_id()) {
        if i == 0 {
            assert(insert_ordered(m, s)[0] == s[0]);
        } else {
            let rest = s.drop_first();
            lemma_insert_at_elements(m, rest, i - 1);
            assert(insert_ordered(m, s)[i] == insert_ordered(m, rest)[i - 1]);
            if insert_ordered(m, rest)[i - 1] != m {
                let k = choose|k: int|
                    0 <= k < rest.len() && insert_ordered(m, rest)[i - 1] == rest[k];
                assert(rest[k] == s[k + 1]);
            }
        }
    } else {
        if i > 0 {
            assert(insert_ordered(m, s)[i] == s[i - 1]);
        }
    }
}

/// The sort output is sorted.
pub proof fn lemma_sort_sorted<T: OrderedById>(s: Seq<T>)
    ensures
        sorted_by_id(sort_ordered(s)),
    decreases s.len(),
{
    if s.len() != 0 {
        lemma_sort_sorted(s.drop_last());
        lemma_insert_sorted(s.last(), sort_ordered(s.drop_last()));
    }
}

/// Sorting a sequence whose tail `t` is already sorted and not below any
/// element of the sorted front leaves the tail in place.
pub proof fn lemma_sort_append<T: OrderedById>(l: Seq<T>, t: Seq<T>)
    requires
        sorted_by_id(t),
        forall|i: int, j: int|
            0 <= i < sort_ordered(l).len() && 0 <= j < t.len() ==> chars_le(
                #[trigger] sort_ordered(l)[i].order_id(),
                #[trigger] t[j].order_id(),
            ),
    ensures
        sort_ordered(l + t) == sort_ordered(l) + t,
    decreases t.len(),
{
    if t.len() == 0 {
        assert(l + t =~= l);
        assert(sort_ordered(l) + t =~= sort_ordered(l));
    } else {
        let t0 = t.drop_last();
        assert(sorted_by_id(t0)) by {
            assert(forall|i: int, j: int|
                0 <= i < j < t0.len() ==> t0[i] == t[i] && t0[j] == t[j]);
        }
        lemma_sort_append(l, t0);
        assert((l + t).drop_last() =~= l + t0);
        assert((l + t).last() == t.last());
        assert(sort_ordered(l + t) == insert_ordered(t.last(), sort_ordered(l) + t0));
        let merged = sort_ordered(l) + t0;
        assert(forall|i: int|
            0 <= i < merged.len() ==> chars_le(
                #[trigger] merged[i].order_id(),
                t.last().order_id(),
            )) by {
            lemma_sort_len(l);
            assert(forall|i: int|
                0 <= i < sort_ordered(l).len() ==> merged[i] == sort_ordered(l)[i]);
            assert(forall|j: int|
                0 <= j < t0.len() ==> merged[sort_ordered(l).len() + j] == t0[j]);
            assert(forall|j: int| 0 <= j < t0.len() ==> t0[j] == t[j]);
        }
        lemma_insert_append(t.last(), merged);
        assert(merged.push(t.last()) =~= sort_ordered(l) + t);
    }
}

/// Inserts `m` into the sorted vector `v`, after equal identifiers.
fn insert_by_id<T: OrderedById>(v: &mut Vec<T>, m: T)
    ensures
        final(v)@ == insert_ordered(m, old(v)@),
{
    let n = v.len();
    let mut j: usize = 0;
    while j < n && v[j].id_le(&m)
        invariant
            j <= n,
            n == v@.len(),
            v@ == old(v)@,
            forall|k: int|
                0 <= k < j ==> chars_le(#[trigger] v@[k].order_id(), m.order_id()),
        decreases n - j,
    {
        j = j + 1;
    }
    proof {
        lemma_insert_at(v@, m, j as int);
    }
    v.insert(j, m);
}

/// Sorts a vector by identifier, stably.
pub fn sort_by_id<T: OrderedById>(v: Vec<T>) -> (r: Vec<T>)
    ensures
        r@ == sort_ordered(v@),
{
    let ghost orig = v@;
    let mut rest = v;
    let mut out: Vec<T> = Vec::new();
    let ghost mut done: int = 0;
    while rest.len() > 0
        invariant
            0 <= done <= orig.len(),
            rest@ =~= orig.skip(done),
            out@ == sort_ordered(orig.take(done)),
        decreases rest@.len(),
    {
        let item = rest.remove(0);
        proof {
            assert(item == orig[done]);
            assert(rest@ =~= orig.skip(done + 1));
        }
        insert_by_id(&mut out, item);
        proof {
            assert(orig.take(done + 1).drop_last() =~= orig.take(done));
            assert(orig.take(done + 1).last() == orig[done]);
            done = done + 1;
        }
    }
    proof {
        assert(orig.take(done) =~= orig);
    }
    out
}

} // verus!
