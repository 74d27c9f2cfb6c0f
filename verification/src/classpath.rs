//! The class path of a launch: the libraries of the loader and vanilla
//! version documents and the client jar, in path order without repeats.
use vstd::prelude::*;
use crate::launch::{pair_views, sviews};
use crate::mods::{chars_le, chars_le_exec};
use crate::order::{
    ins, isort, lemma_chars_le_antisym, lemma_chars_le_total, lemma_chars_le_trans, lemma_isort,
    sorted_by, total_preorder,
};
use crate::paths::{parts, path_parts};
use crate::text::{chars_of, eq, eq_str, join, join_str, split, split_on, str_eq, string_of, views, lemma_split_nonempty};

verus! {

/// A path component as a comparable code: its kind's rank (root, current
/// folder, parent folder, name, in the order std's `Component` has), then,
/// for a name, its characters.
pub open spec fn comp_code(seg: Seq<char>) -> Seq<char> {
    if seg == ".."@ {
        seq!['\u{2}']
    } else {
        seq!['\u{3}'] + seg
    }
}

/// The codes of a list of components.
pub open spec fn codes(ps: Seq<Seq<char>>) -> Seq<Seq<char>>
    decreases ps.len(),
{
    if ps.len() == 0 {
        Seq::empty()
    } else {
        codes(ps.drop_last()).push(comp_code(ps.last()))
    }
}

/// The components of `p` as std's `Path::components` gives them on Unix,
/// coded (see [`comp_code`]): a root for a leading `/`, a current folder
/// for a leading `.` segment, then the parent and name components.
pub open spec fn path_key(p: Seq<char>) -> Seq<Seq<char>> {
    let head = if p.len() > 0 && p[0] == '/' {
        seq![seq!['\u{0}']]
    } else if split(p, '/')[0] == "."@ {
        seq![seq!['\u{1}']]
    } else {
        Seq::empty()
    };
    head + codes(parts(p))
}

/// Lexicographic order of component lists.
pub open spec fn keys_le(a: Seq<Seq<char>>, b: Seq<Seq<char>>) -> bool
    decreases a.len(),
{
    if a.len() == 0 {
        true
    } else if b.len() == 0 {
        false
    } else if a[0] != b[0] {
        chars_le(a[0], b[0])
    } else {
        keys_le(a.drop_first(), b.drop_first())
    }
}

/// std's order of paths: by their components.
pub open spec fn path_le(a: Seq<char>, b: Seq<char>) -> bool {
    keys_le(path_key(a), path_key(b))
}

/// `x` inserted into `s` after every trailing path that sorts after it.
pub open spec fn path_insert(s: Seq<Seq<char>>, x: Seq<char>) -> Seq<Seq<char>>
    decreases s.len(),
{
    if s.len() == 0 {
        seq![x]
    } else if path_le(s.last(), x) {
        s.push(x)
    } else {
        path_insert(s.drop_last(), x).push(s.last())
    }
}

/// The paths sorted by [`path_le`], equal ones keeping their order.
pub open spec fn path_sort(s: Seq<Seq<char>>) -> Seq<Seq<char>>
    decreases s.len(),
{
    if s.len() == 0 {
        Seq::empty()
    } else {
        path_insert(path_sort(s.drop_last()), s.last())
    }
}

/// `s` without the paths equal (component by component) to the one before.
pub open spec fn dedup_paths(s: Seq<Seq<char>>) -> Seq<Seq<char>>
    decreases s.len(),
{
    if s.len() <= 1 {
        s
    } else if path_key(s.last()) == path_key(s[s.len() - 2]) {
        dedup_paths(s.drop_last())
    } else {
        dedup_paths(s.drop_last()).push(s.last())
    }
}

/// The separator of class path entries: `;` on Windows, else `:`.
pub open spec fn cp_sep(windows: bool) -> Seq<char> {
    if windows {
        ";"@
    } else {
        ":"@
    }
}

fn codes_exec(ps: &Vec<Vec<char>>) -> (r: Vec<Vec<char>>)
    ensures
        views(r@) == codes(views(ps@)),
{
    let mut out: Vec<Vec<char>> = Vec::new();
    let mut i: usize = 0;
    while i < ps.len()
        invariant
            i <= ps.len(),
            views(out@) == codes(views(ps@).take(i as int)),
        decreases ps.len() - i,
    {
        assert(views(ps@).take(i + 1).drop_last() =~= views(ps@).take(i as int));
        assert(views(ps@).take(i + 1).last() == ps@[i as int]@);
        let code: Vec<char> = if eq_str(&ps[i], "..") {
            vec!['\u{2}']
        } else {
            let mut c: Vec<char> = vec!['\u{3}'];
            crate::text::append(&mut c, &ps[i]);
            c
        };
        assert(code@ == comp_code(ps@[i as int]@)) by {
            if !(ps@[i as int]@ == ".."@) {
                assert(code@ =~= seq!['\u{3}'] + ps@[i as int]@);
            } else {
                assert(code@ =~= seq!['\u{2}']);
            }
        }
        let ghost before = views(out@);
        out.push(code);
        assert(views(out@) =~= before.push(comp_code(ps@[i as int]@)));
        i += 1;
    }
    assert(views(ps@).take(ps.len() as int) =~= views(ps@));
    out
}

/// The coded components of a path (see [`path_key`]).
pub fn path_key_of(p: &str) -> (r: Vec<Vec<char>>)
    ensures
        views(r@) == path_key(p@),
{
    let v = chars_of(p);
    let segs = split_on(&v, '/');
    proof {
        lemma_split_nonempty(p@, '/');
    }
    let mut out: Vec<Vec<char>> = Vec::new();
    if v.len() > 0 && v[0] == '/' {
        let c: Vec<char> = vec!['\u{0}'];
        assert(c@ =~= seq!['\u{0}']);
        out.push(c);
        assert(views(out@) =~= seq![seq!['\u{0}']]);
    } else if eq_str(&segs[0], ".") {
        let c: Vec<char> = vec!['\u{1}'];
        assert(c@ =~= seq!['\u{1}']);
        out.push(c);
        assert(views(out@) =~= seq![seq!['\u{1}']]);
    } else {
        assert(views(out@) =~= Seq::<Seq<char>>::empty());
    }
    let ghost head = views(out@);
    let comps = codes_exec(&path_parts(&v));
    let ghost tail = views(comps@);
    let mut comps = comps;
    out.append(&mut comps);
    assert(views(out@) =~= head + tail);
    out
}

fn keys_le_exec(a: &Vec<Vec<char>>, b: &Vec<Vec<char>>) -> (r: bool)
    ensures
        r == keys_le(views(a@), views(b@)),
{
    let mut i: usize = 0;
    assert(views(a@).skip(0) =~= views(a@));
    assert(views(b@).skip(0) =~= views(b@));
    while i < a.len()
        invariant
            i <= a.len(),
            i <= b.len(),
            keys_le(views(a@), views(b@)) == keys_le(views(a@).skip(i as int), views(b@).skip(i as int)),
        decreases a.len() - i,
    {
        if i >= b.len() {
            return false;
        }
        assert(views(a@).skip(i as int)[0] == a@[i as int]@);
        assert(views(b@).skip(i as int)[0] == b@[i as int]@);
        assert(views(a@).skip(i as int).drop_first() =~= views(a@).skip(i + 1));
        assert(views(b@).skip(i as int).drop_first() =~= views(b@).skip(i + 1));
        if !eq(&a[i], &b[i]) {
            return chars_le_exec(&a[i], &b[i]);
        }
        i += 1;
    }
    true
}

fn keys_eq_exec(a: &Vec<Vec<char>>, b: &Vec<Vec<char>>) -> (r: bool)
    ensures
        r == (views(a@) == views(b@)),
{
    if a.len() != b.len() {
        assert(views(a@).len() != views(b@).len());
        return false;
    }
    let mut i: usize = 0;
    while i < a.len()
        invariant
            i <= a.len(),
            a.len() == b.len(),
            forall|j: int| 0 <= j < i ==> a@[j]@ == b@[j]@,
        decreases a.len() - i,
    {
        if !eq(&a[i], &b[i]) {
            assert(views(a@)[i as int] != views(b@)[i as int]);
            return false;
        }
        i += 1;
    }
    assert(views(a@) =~= views(b@));
    true
}

fn path_le_exec(a: &String, b: &String) -> (r: bool)
    ensures
        r == path_le(a@, b@),
{
    keys_le_exec(&path_key_of(a.as_str()), &path_key_of(b.as_str()))
}

fn insert_path(v: &mut Vec<String>, x: String)
    ensures
        sviews(final(v)@) == path_insert(sviews(old(v)@), x@),
{
    let ghost s = sviews(v@);
    let ghost orig = v@;
    let mut j = v.len();
    assert(s.take(j as int) =~= s);
    assert(s.skip(j as int) =~= Seq::<Seq<char>>::empty());
    while j > 0 && !path_le_exec(&v[j - 1], &x)
        invariant
            j <= v.len(),
            v@ == orig,
            s == sviews(orig),
            orig == old(v)@,
            path_insert(s, x@) == path_insert(s.take(j as int), x@) + s.skip(j as int),
        decreases j,
    {
        assert(s.take(j as int).drop_last() =~= s.take(j - 1));
        assert(s.take(j as int).last() == s[j - 1]);
        assert(s.skip(j - 1) =~= seq![s[j - 1]] + s.skip(j as int));
        assert(path_insert(s.take(j as int), x@) == path_insert(s.take(j - 1), x@).push(s[j - 1]));
        assert(path_insert(s.take(j - 1), x@).push(s[j - 1]) + s.skip(j as int) =~= path_insert(
            s.take(j - 1),
            x@,
        ) + s.skip(j - 1));
        j -= 1;
    }
    if j > 0 {
        assert(s.take(j as int).last() == s[j - 1]);
        assert(path_insert(s.take(j as int), x@) == s.take(j as int).push(x@));
    } else {
        assert(s.take(0) =~= Seq::<Seq<char>>::empty());
    }
    let ghost xv = x@;
    v.insert(j, x);
    assert(sviews(v@) =~= s.take(j as int).push(xv) + s.skip(j as int));
}

fn sort_paths(v: Vec<String>) -> (r: Vec<String>)
    ensures
        sviews(r@) == path_sort(sviews(v@)),
{
    let ghost orig = sviews(v@);
    assert(orig.len() == v.len());
    let mut rest = v;
    let mut out: Vec<String> = Vec::new();
    let mut k: usize = 0;
    assert(orig.skip(0) =~= orig);
    while rest.len() > 0
        invariant
            k <= orig.len(),
            orig.len() <= usize::MAX,
            rest.len() == orig.len() - k,
            sviews(rest@) == orig.skip(k as int),
            sviews(out@) == path_sort(orig.take(k as int)),
        decreases rest.len(),
    {
        let ghost r0 = rest@;
        let x = rest.remove(0);
        assert(sviews(r0)[0] == x@);
        assert(orig.skip(k as int)[0] == orig[k as int]);
        assert(orig.take(k + 1).drop_last() =~= orig.take(k as int));
        assert(orig.take(k + 1).last() == x@);
        insert_path(&mut out, x);
        assert(rest@ =~= r0.skip(1));
        assert(sviews(rest@) =~= sviews(r0).skip(1));
        assert(sviews(r0).skip(1) =~= orig.skip(k + 1));
        k += 1;
    }
    assert(orig.take(k as int) =~= orig);
    out
}

fn dedup_exec(v: Vec<String>) -> (r: Vec<String>)
    ensures
        sviews(r@) == dedup_paths(sviews(v@)),
{
    let ghost s = sviews(v@);
    let mut out: Vec<String> = Vec::new();
    let mut i: usize = 0;
    while i < v.len()
        invariant
            i <= v.len(),
            s == sviews(v@),
            sviews(out@) == dedup_paths(s.take(i as int)),
        decreases v.len() - i,
    {
        assert(s.take(i + 1).drop_last() =~= s.take(i as int));
        assert(s.take(i + 1).last() == v@[i as int]@);
        let keep = if i == 0 {
            true
        } else {
            !keys_eq_exec(&path_key_of(v[i].as_str()), &path_key_of(v[i - 1].as_str()))
        };
        let ghost before = sviews(out@);
        if i > 0 {
            assert(s.take(i + 1)[i - 1] == v@[i - 1]@);
        }
        if keep {
            out.push(v[i].clone());
            assert(sviews(out@) =~= before.push(v@[i as int]@));
        }
        if i == 0 {
            assert(s.take(1) =~= seq![v@[0]@]);
            assert(s.take(0) =~= Seq::<Seq<char>>::empty());
            assert(sviews(out@) =~= s.take(1));
        }
        i += 1;
    }
    assert(s.take(v.len() as int) =~= s);
    out
}

/// The class path entries of the libraries of a version document, given
/// their candidate places and whether each cached copy is a file: the
/// cached copy when it is, else the instance copy.
pub fn choose_entries(cands: &Vec<(String, String)>, cached_is_file: &Vec<bool>) -> (r: Vec<String>)
    requires
        cached_is_file.len() == cands.len(),
    ensures
        r.len() == cands.len(),
        forall|i: int|
            0 <= i < cands.len() ==> #[trigger] r@[i]@ == if cached_is_file@[i] {
                cands@[i].0@
            } else {
                cands@[i].1@
            },
{
    let mut out: Vec<String> = Vec::new();
    let mut i: usize = 0;
    while i < cands.len()
        invariant
            i <= cands.len(),
            cached_is_file.len() == cands.len(),
            out.len() == i,
            forall|j: int|
                0 <= j < i ==> #[trigger] out@[j]@ == if cached_is_file@[j] {
                    cands@[j].0@
                } else {
                    cands@[j].1@
                },
        decreases cands.len() - i,
    {
        if cached_is_file[i] {
            out.push(cands[i].0.clone());
        } else {
            out.push(cands[i].1.clone());
        }
        i += 1;
    }
    out
}

/// The class path of `entries`: sorted in path order, repeats dropped,
/// joined with the platform's separator.
pub fn build_classpath(entries: Vec<String>, windows: bool) -> (r: String)
    ensures
        r@ == join(dedup_paths(path_sort(sviews(entries@))), cp_sep(windows)),
{
    let sorted = sort_paths(entries);
    let unique = dedup_exec(sorted);
    let mut parts: Vec<Vec<char>> = Vec::new();
    let mut i: usize = 0;
    while i < unique.len()
        invariant
            i <= unique.len(),
            views(parts@) == sviews(unique@).take(i as int),
        decreases unique.len() - i,
    {
        let ghost before = views(parts@);
        parts.push(chars_of(unique[i].as_str()));
        assert(views(parts@) =~= before.push(unique@[i as int]@));
        assert(sviews(unique@).take(i + 1) =~= sviews(unique@).take(i as int).push(unique@[i as int]@));
        i += 1;
    }
    assert(sviews(unique@).take(unique.len() as int) =~= sviews(unique@));
    let sep = if windows {
        ";"
    } else {
        ":"
    };
    string_of(&join_str(&parts, sep))
}

// ===========================================================================
// Laws
// ===========================================================================

proof fn lemma_keys_le_total(a: Seq<Seq<char>>, b: Seq<Seq<char>>)
    ensures
        keys_le(a, b) || keys_le(b, a),
    decreases a.len(),
{
    if a.len() > 0 && b.len() > 0 {
        if a[0] == b[0] {
            lemma_keys_le_total(a.drop_first(), b.drop_first());
        } else {
            lemma_chars_le_total(a[0], b[0]);
        }
    }
}

proof fn lemma_keys_le_trans(a: Seq<Seq<char>>, b: Seq<Seq<char>>, c: Seq<Seq<char>>)
    requires
        keys_le(a, b),
        keys_le(b, c),
    ensures
        keys_le(a, c),
    decreases a.len(),
{
    if a.len() > 0 && b.len() > 0 && c.len() > 0 {
        if a[0] == b[0] && b[0] == c[0] {
            lemma_keys_le_trans(a.drop_first(), b.drop_first(), c.drop_first());
        } else if a[0] != b[0] && b[0] != c[0] {
            lemma_chars_le_trans(a[0], b[0], c[0]);
            if a[0] == c[0] {
                lemma_chars_le_antisym(a[0], b[0]);
            }
        }
    }
}

proof fn lemma_keys_le_antisym(a: Seq<Seq<char>>, b: Seq<Seq<char>>)
    requires
        keys_le(a, b),
        keys_le(b, a),
    ensures
        a == b,
    decreases a.len(),
{
    if a.len() == 0 {
        assert(a =~= b);
    } else {
        if a[0] != b[0] {
            lemma_chars_le_antisym(a[0], b[0]);
        }
        lemma_keys_le_antisym(a.drop_first(), b.drop_first());
        assert(a =~= seq![a[0]] + a.drop_first());
        assert(b =~= seq![b[0]] + b.drop_first());
    }
}

/// The path order as a relation.
pub open spec fn path_order() -> spec_fn(Seq<char>, Seq<char>) -> bool {
    |a: Seq<char>, b: Seq<char>| path_le(a, b)
}

proof fn lemma_path_insert_is(s: Seq<Seq<char>>, x: Seq<char>)
    ensures
        path_insert(s, x) == ins(s, x, path_order()),
    decreases s.len(),
{
    if s.len() > 0 {
        lemma_path_insert_is(s.drop_last(), x);
    }
}

proof fn lemma_path_sort_is(s: Seq<Seq<char>>)
    ensures
        path_sort(s) == isort(s, path_order()),
    decreases s.len(),
{
    if s.len() > 0 {
        lemma_path_sort_is(s.drop_last());
        lemma_path_insert_is(path_sort(s.drop_last()), s.last());
    }
}

proof fn lemma_path_order_total()
    ensures
        total_preorder(path_order()),
{
    let le = path_order();
    assert forall|a: Seq<char>, b: Seq<char>| #[trigger] le(a, b) || le(b, a) by {
        lemma_keys_le_total(path_key(a), path_key(b));
    }
    assert forall|a: Seq<char>, b: Seq<char>, c: Seq<char>| #[trigger] le(a, b) && #[trigger] le(b, c) implies le(
        a,
        c,
    ) by {
        lemma_keys_le_trans(path_key(a), path_key(b), path_key(c));
    }
}

proof fn lemma_dedup_from(t: Seq<Seq<char>>)
    ensures
        forall|k: int| #![trigger dedup_paths(t)[k]]
            0 <= k < dedup_paths(t).len() ==> exists|i: int| 0 <= i < t.len() && dedup_paths(t)[k] == #[trigger] t[i],
    decreases t.len(),
{
    if t.len() <= 1 {
        assert forall|k: int| #![trigger dedup_paths(t)[k]]
            0 <= k < dedup_paths(t).len() implies exists|i: int| 0 <= i < t.len() && dedup_paths(t)[k] == #[trigger] t[i] by {
            assert(dedup_paths(t)[k] == t[k]);
        }
    } else {
        let d = t.drop_last();
        lemma_dedup_from(d);
        assert forall|k: int| #![trigger dedup_paths(t)[k]]
            0 <= k < dedup_paths(t).len() implies exists|i: int| 0 <= i < t.len() && dedup_paths(t)[k] == #[trigger] t[i] by {
            if k < dedup_paths(d).len() {
                assert(dedup_paths(t)[k] == dedup_paths(d)[k]);
                let i = choose|i: int| 0 <= i < d.len() && dedup_paths(d)[k] == #[trigger] d[i];
                assert(t[i] == d[i]);
            } else {
                assert(dedup_paths(t)[k] == t[t.len() - 1]);
            }
        }
    }
}

proof fn lemma_dedup_strict(t: Seq<Seq<char>>)
    requires
        sorted_by(t, path_order()),
    ensures
        forall|i: int, j: int|
            0 <= i < j < dedup_paths(t).len() ==> path_le(#[trigger] dedup_paths(t)[i], #[trigger] dedup_paths(t)[j])
                && path_key(dedup_paths(t)[i]) != path_key(dedup_paths(t)[j]),
    decreases t.len(),
{
    if t.len() > 1 {
        let d = t.drop_last();
        let n = t.len();
        assert(sorted_by(d, path_order())) by {
            assert forall|i: int, j: int| 0 <= i < j < d.len() implies path_order()(#[trigger] d[i], #[trigger] d[j]) by {
                assert(d[i] == t[i] && d[j] == t[j]);
            }
        }
        lemma_dedup_strict(d);
        lemma_dedup_from(d);
        if path_key(t[n - 1]) != path_key(t[n - 2]) {
            let dd = dedup_paths(d);
            let out = dedup_paths(t);
            assert(out == dd.push(t[n - 1]));
            assert(path_order()(t[n - 2], t[n - 1]));
            assert forall|i: int, j: int| 0 <= i < j < out.len() implies path_le(#[trigger] out[i], #[trigger] out[j])
                && path_key(out[i]) != path_key(out[j]) by {
                if j < dd.len() {
                    assert(out[i] == dd[i] && out[j] == dd[j]);
                } else {
                    assert(out[i] == dd[i]);
                    assert(out[j] == t[n - 1]);
                    assert(exists|m: int| 0 <= m < d.len() && dd[i] == #[trigger] d[m]);
                    let m = choose|m: int| 0 <= m < d.len() && dd[i] == #[trigger] d[m];
                    if m < n - 2 {
                        assert(path_order()(t[m], t[n - 2]));
                    } else {
                        lemma_keys_le_total(path_key(t[m]), path_key(t[m]));
                    }
                    let (ki, k2, kl) = (path_key(dd[i]), path_key(t[n - 2]), path_key(t[n - 1]));
                    assert(keys_le(ki, k2)) by {
                        if m == n - 2 {
                            assert(ki == k2);
                            lemma_keys_le_total(ki, ki);
                        }
                    }
                    lemma_keys_le_trans(ki, k2, kl);
                    if ki == kl {
                        lemma_keys_le_antisym(k2, kl);
                    }
                }
            }
        }
    }
}

/// The class path lists its entries in path order (by components, as std
/// orders paths), each path once: no two entries are the same path.
pub proof fn law_classpath_ordered(entries: Seq<Seq<char>>)
    ensures
        ({
            let d = dedup_paths(path_sort(entries));
            forall|i: int, j: int|
                0 <= i < j < d.len() ==> path_le(#[trigger] d[i], #[trigger] d[j]) && path_key(d[i]) != path_key(d[j])
        }),
{
    lemma_path_order_total();
    lemma_path_sort_is(entries);
    lemma_isort(entries, path_order());
    lemma_dedup_strict(path_sort(entries));
}

} // verus!
