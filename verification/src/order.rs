//! Orders and stable insertion sorting: the character order of texts, and
//! what sorting by a total preorder guarantees (order and the same items).
use vstd::prelude::*;
use vstd::multiset::Multiset;
use crate::mods::chars_le;

verus! {

broadcast use vstd::seq_lib::group_to_multiset_ensures;

// ===========================================================================
// Generic insertion sort
// ===========================================================================

/// `x` inserted into `s` after every trailing item that `le` puts before
/// or level with it.
pub open spec fn ins<T>(s: Seq<T>, x: T, le: spec_fn(T, T) -> bool) -> Seq<T>
    decreases s.len(),
{
    if s.len() == 0 {
        seq![x]
    } else if le(s.last(), x) {
        s.push(x)
    } else {
        ins(s.drop_last(), x, le).push(s.last())
    }
}

/// `s` sorted by `le` by insertion, level items keeping their order.
pub open spec fn isort<T>(s: Seq<T>, le: spec_fn(T, T) -> bool) -> Seq<T>
    decreases s.len(),
{
    if s.len() == 0 {
        Seq::empty()
    } else {
        ins(isort(s.drop_last(), le), s.last(), le)
    }
}

/// `le` relates any two items one way or the other, and chains.
pub open spec fn total_preorder<T>(le: spec_fn(T, T) -> bool) -> bool {
    &&& forall|a: T, b: T| #[trigger] le(a, b) || le(b, a)
    &&& forall|a: T, b: T, c: T| #[trigger] le(a, b) && #[trigger] le(b, c) ==> le(a, c)
}

/// Every item of `s` comes before or level with every later one.
pub open spec fn sorted_by<T>(s: Seq<T>, le: spec_fn(T, T) -> bool) -> bool {
    forall|i: int, j: int| 0 <= i < j < s.len() ==> le(#[trigger] s[i], #[trigger] s[j])
}

proof fn lemma_ins_bounded<T>(s: Seq<T>, x: T, m: T, le: spec_fn(T, T) -> bool)
    requires
        forall|k: int| 0 <= k < s.len() ==> le(#[trigger] s[k], m),
        le(x, m),
    ensures
        forall|k: int| 0 <= k < ins(s, x, le).len() ==> le(#[trigger] ins(s, x, le)[k], m),
    decreases s.len(),
{
    if s.len() > 0 && !le(s.last(), x) {
        let d = s.drop_last();
        lemma_ins_bounded(d, x, m, le);
        let r = ins(d, x, le);
        assert forall|k: int| 0 <= k < ins(s, x, le).len() implies le(#[trigger] ins(s, x, le)[k], m) by {
            if k < r.len() {
                assert(ins(s, x, le)[k] == r[k]);
            } else {
                assert(ins(s, x, le)[k] == s[s.len() - 1]);
            }
        }
    }
}

proof fn lemma_ins_sorted<T>(s: Seq<T>, x: T, le: spec_fn(T, T) -> bool)
    requires
        total_preorder(le),
        sorted_by(s, le),
    ensures
        sorted_by(ins(s, x, le), le),
        ins(s, x, le).to_multiset() == s.to_multiset().insert(x),
        ins(s, x, le).len() == s.len() + 1,
    decreases s.len(),
{
    if s.len() == 0 {
        assert(seq![x] =~= Seq::<T>::empty().push(x));
        assert(Seq::<T>::empty().to_multiset() =~= Multiset::empty());
    } else if le(s.last(), x) {
        let r = s.push(x);
        assert forall|i: int, j: int| 0 <= i < j < r.len() implies le(#[trigger] r[i], #[trigger] r[j]) by {
            if j == s.len() {
                if i < s.len() - 1 {
                    assert(le(s[i], s[s.len() - 1]));
                }
                assert(le(s[i], s.last()) && le(s.last(), x) ==> le(s[i], x));
            }
        }
    } else {
        let d = s.drop_last();
        let m = s.last();
        assert(le(x, m));
        assert(sorted_by(d, le));
        lemma_ins_sorted(d, x, le);
        assert forall|k: int| 0 <= k < d.len() implies le(#[trigger] d[k], m) by {
            assert(s[k] == d[k]);
        }
        lemma_ins_bounded(d, x, m, le);
        let r = ins(d, x, le);
        let out = r.push(m);
        assert forall|i: int, j: int| 0 <= i < j < out.len() implies le(#[trigger] out[i], #[trigger] out[j]) by {
            if j < r.len() {
                assert(out[i] == r[i] && out[j] == r[j]);
            } else {
                assert(out[i] == r[i]);
                assert(le(r[i], m));
            }
        }
        assert(s == d.push(m));
        assert(out.to_multiset() =~= r.to_multiset().insert(m));
        assert(s.to_multiset() =~= d.to_multiset().insert(m));
    }
}

/// Sorting by a total preorder gives a sorted sequence of the same items.
pub proof fn lemma_isort<T>(s: Seq<T>, le: spec_fn(T, T) -> bool)
    requires
        total_preorder(le),
    ensures
        sorted_by(isort(s, le), le),
        isort(s, le).to_multiset() == s.to_multiset(),
        isort(s, le).len() == s.len(),
    decreases s.len(),
{
    if s.len() == 0 {
        assert(isort(s, le) =~= Seq::<T>::empty());
    } else {
        let d = s.drop_last();
        lemma_isort(d, le);
        lemma_ins_sorted(isort(d, le), s.last(), le);
        assert(s == d.push(s.last()));
        assert(s.to_multiset() =~= d.to_multiset().insert(s.last()));
    }
}

// ===========================================================================
// The character order
// ===========================================================================

proof fn lemma_char_code(x: char, y: char)
    ensures
        x != y ==> (x as u32) != (y as u32),
{
    assert(0 <= (x as int) <= 0x10FFFF);
    assert(0 <= (y as int) <= 0x10FFFF);
}

/// Texts are ordered one way or the other.
pub proof fn lemma_chars_le_total(a: Seq<char>, b: Seq<char>)
    ensures
        chars_le(a, b) || chars_le(b, a),
    decreases a.len(),
{
    if a.len() > 0 && b.len() > 0 {
        if a[0] == b[0] {
            lemma_chars_le_total(a.drop_first(), b.drop_first());
        } else {
            lemma_char_code(a[0], b[0]);
        }
    }
}

/// The character order chains.
pub proof fn lemma_chars_le_trans(a: Seq<char>, b: Seq<char>, c: Seq<char>)
    requires
        chars_le(a, b),
        chars_le(b, c),
    ensures
        chars_le(a, c),
    decreases a.len(),
{
    if a.len() > 0 && b.len() > 0 && c.len() > 0 && a[0] == b[0] && b[0] == c[0] {
        lemma_chars_le_trans(a.drop_first(), b.drop_first(), c.drop_first());
    }
}

/// Texts ordered both ways are equal.
pub proof fn lemma_chars_le_antisym(a: Seq<char>, b: Seq<char>)
    requires
        chars_le(a, b),
        chars_le(b, a),
    ensures
        a == b,
    decreases a.len(),
{
    if a.len() == 0 {
        assert(b.len() == 0);
        assert(a =~= b);
    } else {
        assert(b.len() > 0);
        assert(a[0] == b[0]);
        lemma_chars_le_antisym(a.drop_first(), b.drop_first());
        assert(a =~= seq![a[0]] + a.drop_first());
        assert(b =~= seq![b[0]] + b.drop_first());
    }
}

/// Every text is ordered with itself.
pub proof fn lemma_chars_le_refl(a: Seq<char>)
    ensures
        chars_le(a, a),
    decreases a.len(),
{
    if a.len() > 0 {
        lemma_chars_le_refl(a.drop_first());
    }
}

} // verus!
