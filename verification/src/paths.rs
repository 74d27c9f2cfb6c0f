//! Unix path rules used by the library: joining, splitting into normal
//! components, file names and extensions (std's `Path`/`PathBuf` on Unix).
use vstd::prelude::*;
use crate::error::AppError;
use crate::text::{
    append, chars_of, copy, eq_str, has_char, lemma_split_nonempty, split, split_on, trim, trimmed,
    utf8_len, utf8_len_capped, views,
};

verus! {

/// `base` joined with `name` (std's `PathBuf::join` on Unix): an absolute
/// `name` replaces `base`; otherwise one separator goes between them.
pub open spec fn join(base: Seq<char>, name: Seq<char>) -> Seq<char> {
    if name.len() > 0 && name[0] == '/' {
        name
    } else if base.len() == 0 || base.last() == '/' {
        base + name
    } else {
        base + seq!['/'] + name
    }
}

pub fn path_join(base: &Vec<char>, name: &Vec<char>) -> (r: Vec<char>)
    ensures
        r@ == join(base@, name@),
{
    if name.len() > 0 && name[0] == '/' {
        return copy(name);
    }
    let mut r = copy(base);
    if !(base.len() == 0 || base[base.len() - 1] == '/') {
        r.push('/');
    }
    append(&mut r, name);
    r
}

pub fn path_join_str(base: &Vec<char>, name: &str) -> (r: Vec<char>)
    ensures
        r@ == join(base@, name@),
{
    let n = chars_of(name);
    path_join(base, &n)
}

/// A path segment that names nothing (an empty segment, or `.`).
pub open spec fn is_filler(s: Seq<char>) -> bool {
    s.len() == 0 || s == "."@
}

/// The segments of `p` that are components: `..` or names.
pub open spec fn parts(p: Seq<char>) -> Seq<Seq<char>> {
    split(p, '/').filter(|s: Seq<char>| !is_filler(s))
}

/// The last component of `p` when it is a name (std's `Path::file_name`).
pub open spec fn file_name(p: Seq<char>) -> Option<Seq<char>> {
    let ps = parts(p);
    if ps.len() == 0 || ps.last() == ".."@ {
        None
    } else {
        Some(ps.last())
    }
}

/// The position of the last `.` in `f`, if any.
pub open spec fn last_dot(f: Seq<char>) -> Option<int>
    decreases f.len(),
{
    if f.len() == 0 {
        None
    } else if f.last() == '.' {
        Some(f.len() - 1)
    } else {
        last_dot(f.drop_last())
    }
}

/// The extension of the file name `f`: the text after its last `.`, when
/// that `.` is not its first character (std's `Path::extension`).
pub open spec fn extension_of(f: Seq<char>) -> Option<Seq<char>> {
    match last_dot(f) {
        Some(i) => if i > 0 {
            Some(f.skip(i + 1))
        } else {
            None
        },
        None => None,
    }
}

/// The extension of the path `p`.
pub open spec fn extension(p: Seq<char>) -> Option<Seq<char>> {
    match file_name(p) {
        Some(f) => if f == ".."@ {
            None
        } else {
            extension_of(f)
        },
        None => None,
    }
}

pub open spec fn opt_views(o: Option<Vec<char>>) -> Option<Seq<char>> {
    match o {
        Some(v) => Some(v@),
        None => None,
    }
}

/// The components of `p`.
pub fn path_parts(p: &Vec<char>) -> (r: Vec<Vec<char>>)
    ensures
        views(r@) == parts(p@),
{
    let segs = split_on(p, '/');
    let ghost sv = views(segs@);
    let mut r: Vec<Vec<char>> = Vec::new();
    let mut i: usize = 0;
    while i < segs.len()
        invariant
            i <= segs.len(),
            sv == views(segs@),
            views(r@) == sv.take(i as int).filter(|s: Seq<char>| !is_filler(s)),
        decreases segs.len() - i,
    {
        let keep = !(segs[i].len() == 0 || eq_str(&segs[i], "."));
        proof {
            reveal_with_fuel(Seq::filter, 1);
            assert(sv.take(i + 1).drop_last() == sv.take(i as int));
        }
        if keep {
            let ghost r0 = r@;
            r.push(copy(&segs[i]));
            assert(views(r@) =~= views(r0).push(sv[i as int]));
        }
        i += 1;
    }
    assert(sv.take(segs.len() as int) == sv);
    r
}

pub fn path_file_name(p: &Vec<char>) -> (r: Option<Vec<char>>)
    ensures
        opt_views(r) == file_name(p@),
{
    let ps = path_parts(p);
    if ps.len() == 0 {
        return None;
    }
    let last = &ps[ps.len() - 1];
    assert(views(ps@).last() == last@);
    if eq_str(last, "..") {
        None
    } else {
        Some(copy(last))
    }
}

pub fn find_last_dot(f: &Vec<char>) -> (r: Option<usize>)
    ensures
        match r {
            Some(i) => last_dot(f@) == Some(i as int),
            None => last_dot(f@) is None,
        },
{
    let mut j: usize = f.len();
    assert(f@.take(j as int) == f@);
    while j > 0
        invariant
            j <= f.len(),
            last_dot(f@) == last_dot(f@.take(j as int)),
        decreases j,
    {
        assert(f@.take(j as int).last() == f@[j - 1]);
        assert(f@.take(j as int).drop_last() == f@.take(j - 1));
        if f[j - 1] == '.' {
            return Some(j - 1);
        }
        j -= 1;
    }
    None
}

proof fn lemma_last_dot_range(f: Seq<char>)
    ensures
        last_dot(f) is Some ==> 0 <= last_dot(f)->0 < f.len() && f[last_dot(f)->0] == '.',
    decreases f.len(),
{
    if f.len() > 0 && f.last() != '.' {
        lemma_last_dot_range(f.drop_last());
    }
}

pub fn file_extension(f: &Vec<char>) -> (r: Option<Vec<char>>)
    ensures
        opt_views(r) == extension_of(f@),
{
    proof {
        lemma_last_dot_range(f@);
    }
    match find_last_dot(f) {
        Some(i) => {
            proof {
                lemma_last_dot_range(f@);
                assert(last_dot(f@)->0 == i);
                assert(i < f@.len());
                assert(i < f.len());
            }
            if i > 0 {
                let mut e: Vec<char> = Vec::new();
                let mut k: usize = i + 1;
                while k < f.len()
                    invariant
                        i + 1 <= k <= f.len(),
                        e@ == f@.subrange(i + 1, k as int),
                    decreases f.len() - k,
                {
                    e.push(f[k]);
                    k += 1;
                    assert(f@.subrange(i + 1, k as int) == f@.subrange(i + 1, k - 1).push(
                        f@[k - 1],
                    ));
                }
                assert(f@.subrange(i + 1, f.len() as int) == f@.skip(i + 1));
                Some(e)
            } else {
                None
            }
        },
        None => None,
    }
}

/// The stem of the file name `f`: the text before its last `.`, when that
/// `.` is not its first character; else all of it (std's `Path::file_stem`).
pub open spec fn stem_of(f: Seq<char>) -> Seq<char> {
    match last_dot(f) {
        Some(i) => if i > 0 {
            f.take(i)
        } else {
            f
        },
        None => f,
    }
}

/// The stem of the path `p`, when it has a file name.
pub open spec fn file_stem(p: Seq<char>) -> Option<Seq<char>> {
    match file_name(p) {
        Some(f) => Some(stem_of(f)),
        None => None,
    }
}

pub fn path_file_stem(p: &Vec<char>) -> (r: Option<Vec<char>>)
    ensures
        opt_views(r) == file_stem(p@),
{
    let f = match path_file_name(p) {
        Some(f) => f,
        None => {
            return None;
        },
    };
    proof {
        lemma_last_dot_range(f@);
    }
    match find_last_dot(&f) {
        Some(i) => {
            if i > 0 {
                Some(crate::text::slice(&f, 0, i))
            } else {
                Some(f)
            }
        },
        None => Some(f),
    }
}

/// The extension of the path `p`.
pub fn path_extension(p: &Vec<char>) -> (r: Option<Vec<char>>)
    ensures
        opt_views(r) == extension(p@),
{
    match path_file_name(p) {
        Some(f) => {
            if eq_str(&f, "..") {
                None
            } else {
                file_extension(&f)
            }
        },
        None => None,
    }
}

/// The outcome of checking a user-supplied file name: the bare file name it
/// designates, or why it is refused. Names are trimmed; empty, overlong
/// (over 255 bytes), NUL-bearing, absolute, `.`/`..`, nested and
/// backslash-bearing names are refused.
pub open spec fn basename(name: Seq<char>) -> Result<Seq<char>, Seq<char>> {
    let t = trim(name);
    let first = split(t, '/')[0];
    if t.len() == 0 {
        Err("Empty file name"@)
    } else if utf8_len(t) > 255 {
        Err("File name too long"@)
    } else if t.contains('\0') {
        Err("Invalid file name"@)
    } else if t[0] == '/' {
        Err("Absolute paths are not allowed"@)
    } else if first == "."@ || first == ".."@ {
        Err("Unsafe file name"@)
    } else if parts(t).len() > 1 {
        Err("Nested paths are not allowed"@)
    } else if first.contains('\\') {
        Err("Unsafe file name"@)
    } else {
        Ok(first)
    }
}

pub open spec fn checked(r: Result<Vec<char>, AppError>, s: Result<Seq<char>, Seq<char>>) -> bool {
    match r {
        Ok(v) => s == Ok::<Seq<char>, Seq<char>>(v@),
        Err(e) => s == Err::<Seq<char>, Seq<char>>(e.message@),
    }
}

/// Checks a user-supplied file name (see [`basename`]).
pub fn check_basename(name: &str) -> (r: Result<Vec<char>, AppError>)
    ensures
        checked(r, basename(name@)),
{
    let raw = chars_of(name);
    let t = trimmed(&raw);
    if t.len() == 0 {
        return Err(AppError::lit("Empty file name"));
    }
    if utf8_len_capped(&t, 255).is_none() {
        return Err(AppError::lit("File name too long"));
    }
    if has_char(&t, '\0') {
        return Err(AppError::lit("Invalid file name"));
    }
    if t[0] == '/' {
        return Err(AppError::lit("Absolute paths are not allowed"));
    }
    let segs = split_on(&t, '/');
    proof {
        lemma_split_nonempty(t@, '/');
    }
    let first = &segs[0];
    assert(views(segs@)[0] == first@);
    if eq_str(first, ".") || eq_str(first, "..") {
        return Err(AppError::lit("Unsafe file name"));
    }
    let ps = path_parts(&t);
    if ps.len() > 1 {
        return Err(AppError::lit("Nested paths are not allowed"));
    }
    if has_char(first, '\\') {
        return Err(AppError::lit("Unsafe file name"));
    }
    Ok(copy(first))
}

/// The extension of `name` in ASCII lowercase.
pub open spec fn lower_ext(name: Seq<char>) -> Option<Seq<char>> {
    match extension(name) {
        Some(e) => Some(crate::text::lower(e)),
        None => None,
    }
}

pub fn extension_lower(name: &str) -> (r: Option<Vec<char>>)
    ensures
        opt_views(r) == lower_ext(name@),
{
    match path_extension(&chars_of(name)) {
        Some(e) => Some(crate::text::to_lower(&e)),
        None => None,
    }
}

// ===========================================================================
// Laws
// ===========================================================================

/// The segments of `s` that are components.
pub open spec fn clean(s: Seq<Seq<char>>) -> Seq<Seq<char>> {
    s.filter(|x: Seq<char>| !is_filler(x))
}

proof fn lemma_filter_keeps(s: Seq<Seq<char>>, q: spec_fn(Seq<char>) -> bool)
    requires
        forall|k: int| 0 <= k < s.len() ==> q(#[trigger] s[k]),
    ensures
        forall|k: int| 0 <= k < clean(s).len() ==> q(#[trigger] clean(s)[k]) && !is_filler(clean(s)[k]),
    decreases s.len(),
{
    reveal_with_fuel(Seq::filter, 1);
    if s.len() > 0 {
        let d = s.drop_last();
        lemma_filter_keeps(d, q);
        let sub = clean(d);
        if !is_filler(s.last()) {
            assert(clean(s) == sub.push(s.last()));
        } else {
            assert(clean(s) == sub);
        }
    }
}

/// The components of a path hold no `/`, and none is empty or `.`.
pub proof fn lemma_parts_clean(p: Seq<char>)
    ensures
        forall|k: int|
            0 <= k < parts(p).len() ==> !(#[trigger] parts(p)[k]).contains('/') && !is_filler(parts(p)[k]),
{
    crate::text::lemma_split_pieces(p, '/');
    assert(parts(p) == clean(split(p, '/')));
    lemma_filter_keeps(split(p, '/'), |x: Seq<char>| !x.contains('/'));
}

/// The components of a path lack what the path lacks.
pub proof fn lemma_parts_lack(p: Seq<char>, d: char)
    requires
        crate::text::lacks(p, d),
    ensures
        forall|k: int| 0 <= k < parts(p).len() ==> crate::text::lacks(#[trigger] parts(p)[k], d),
{
    crate::text::lemma_split_lacks(p, '/', d);
    assert(parts(p) == clean(split(p, '/')));
    lemma_filter_keeps(split(p, '/'), |x: Seq<char>| crate::text::lacks(x, d));
}

/// A checked file name is a bare name: not empty, without `/` or `\`,
/// and neither `.` nor `..`, so it can only name an entry of the folder it
/// is joined to.
pub proof fn law_basename_is_bare(name: Seq<char>)
    ensures
        basename(name) matches Ok(n) ==> n.len() > 0 && !n.contains('/') && !n.contains('\\')
            && n != "."@ && n != ".."@,
{
    let t = trim(name);
    crate::text::lemma_split_pieces(t, '/');
    crate::text::lemma_split_nonempty(t, '/');
    if basename(name) is Ok {
        let first = split(t, '/')[0];
        assert(!first.contains('/'));
        assert(t.len() > 0 && t[0] != '/');
        assert(first.len() > 0);
        assert(basename(name) == Ok::<Seq<char>, Seq<char>>(first));
    }
}

} // verus!
