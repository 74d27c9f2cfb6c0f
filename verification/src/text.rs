//! Character-level building blocks: the std string operations the library
//! relies on, each stated as a short spec function over `Seq<char>` and
//! implemented over `Vec<char>`.
use vstd::prelude::*;

verus! {

broadcast use vstd::string::group_string_axioms;

// ---------------------------------------------------------------------------
// Specifications
// ---------------------------------------------------------------------------

/// ASCII letter or digit (std's `char::is_ascii_alphanumeric`).
pub open spec fn is_ascii_alnum(c: char) -> bool {
    ('0' as u32 <= c as u32 <= '9' as u32) || ('a' as u32 <= c as u32 <= 'z' as u32) || (
    'A' as u32 <= c as u32 <= 'Z' as u32)
}

/// ASCII lowercase of `c` (std's `char::to_ascii_lowercase`).
pub open spec fn ascii_lower(c: char) -> char {
    if 'A' as u32 <= c as u32 <= 'Z' as u32 {
        ((c as u32) + 32) as char
    } else {
        c
    }
}

/// Unicode `White_Space` (std's `char::is_whitespace`).
pub open spec fn is_ws(c: char) -> bool {
    let u = c as u32;
    (0x09 <= u <= 0x0d) || u == 0x20 || u == 0x85 || u == 0xa0 || u == 0x1680 || (0x2000 <= u
        <= 0x200a) || u == 0x2028 || u == 0x2029 || u == 0x202f || u == 0x205f || u == 0x3000
}

/// `s` in ASCII lowercase (std's `str::to_ascii_lowercase`).
pub open spec fn lower(s: Seq<char>) -> Seq<char> {
    s.map_values(|c: char| ascii_lower(c))
}

/// `s` without leading whitespace.
pub open spec fn trim_start(s: Seq<char>) -> Seq<char>
    decreases s.len(),
{
    if s.len() > 0 && is_ws(s[0]) {
        trim_start(s.drop_first())
    } else {
        s
    }
}

/// `s` without trailing whitespace.
pub open spec fn trim_end(s: Seq<char>) -> Seq<char>
    decreases s.len(),
{
    if s.len() > 0 && is_ws(s.last()) {
        trim_end(s.drop_last())
    } else {
        s
    }
}

/// `s` without leading and trailing whitespace (std's `str::trim`).
pub open spec fn trim(s: Seq<char>) -> Seq<char> {
    trim_end(trim_start(s))
}

pub open spec fn starts_with(s: Seq<char>, p: Seq<char>) -> bool {
    p.len() <= s.len() && s.take(p.len() as int) == p
}

pub open spec fn ends_with(s: Seq<char>, p: Seq<char>) -> bool {
    p.len() <= s.len() && s.skip(s.len() - p.len()) == p
}

/// `p` occurs in `s` at position `i`.
pub open spec fn occurs_at(s: Seq<char>, p: Seq<char>, i: int) -> bool {
    0 <= i && i + p.len() <= s.len() && s.subrange(i, i + p.len()) == p
}

/// `p` occurs somewhere in `s` (std's `str::contains` with a string pattern).
pub open spec fn contains_seq(s: Seq<char>, p: Seq<char>) -> bool {
    exists|i: int| occurs_at(s, p, i)
}

/// The pieces of `s` between occurrences of `c` (std's `str::split` with a char).
pub open spec fn split(s: Seq<char>, c: char) -> Seq<Seq<char>>
    decreases s.len(),
{
    if s.len() == 0 {
        seq![Seq::empty()]
    } else {
        let r = split(s.drop_last(), c);
        if s.last() == c {
            r.push(Seq::empty())
        } else {
            r.update(r.len() - 1, r.last().push(s.last()))
        }
    }
}

/// `parts` joined with `sep` between consecutive parts (std's `[S]::join`).
pub open spec fn join(parts: Seq<Seq<char>>, sep: Seq<char>) -> Seq<char>
    decreases parts.len(),
{
    if parts.len() == 0 {
        Seq::empty()
    } else if parts.len() == 1 {
        parts[0]
    } else {
        join(parts.drop_last(), sep) + sep + parts.last()
    }
}

/// A join begins with its first part.
pub proof fn lemma_join_starts(parts: Seq<Seq<char>>, sep: Seq<char>)
    requires
        parts.len() > 0,
    ensures
        join(parts, sep).len() >= parts[0].len(),
        join(parts, sep).take(parts[0].len() as int) == parts[0],
    decreases parts.len(),
{
    if parts.len() > 1 {
        let d = parts.drop_last();
        lemma_join_starts(d, sep);
        let j = join(d, sep);
        assert(join(parts, sep) == j + sep + parts.last());
        assert((j + sep + parts.last()).take(parts[0].len() as int) =~= j.take(parts[0].len() as int));
    } else {
        assert(join(parts, sep).take(parts[0].len() as int) =~= parts[0]);
    }
}

/// `to` before every character of `s` and at its end (std's `str::replace`
/// with an empty pattern).
pub open spec fn interleave(s: Seq<char>, to: Seq<char>) -> Seq<char>
    decreases s.len(),
{
    if s.len() == 0 {
        to
    } else {
        to + seq![s[0]] + interleave(s.drop_first(), to)
    }
}

/// Every non-overlapping occurrence of `from` in `s`, scanning from the left,
/// replaced by `to` (std's `str::replace`).
pub open spec fn replace(s: Seq<char>, from: Seq<char>, to: Seq<char>) -> Seq<char>
    decreases s.len(),
{
    if from.len() == 0 {
        interleave(s, to)
    } else if s.len() < from.len() {
        s
    } else if s.take(from.len() as int) == from {
        to + replace(s.skip(from.len() as int), from, to)
    } else {
        seq![s[0]] + replace(s.drop_first(), from, to)
    }
}

/// Decimal digits of `n` (std's `Display` for unsigned integers).
pub open spec fn decimal(n: nat) -> Seq<char>
    decreases n,
{
    if n < 10 {
        seq![digit_char(n)]
    } else {
        decimal(n / 10).push(digit_char(n % 10))
    }
}

pub open spec fn digit_char(d: nat) -> char {
    (('0' as u32) + d) as char
}

/// The views of a sequence of character vectors.
pub open spec fn views(v: Seq<Vec<char>>) -> Seq<Seq<char>> {
    v.map_values(|x: Vec<char>| x@)
}


/// The view of an optional string.
pub open spec fn oview(o: Option<String>) -> Option<Seq<char>> {
    match o {
        Some(s) => Some(s@),
        None => None,
    }
}

/// Whether two strings hold the same characters.
pub fn str_eq(a: &str, b: &str) -> (r: bool)
    ensures
        r == (a@ == b@),
{
    let av = chars_of(a);
    let bv = chars_of(b);
    eq(&av, &bv)
}

/// A copy of an optional string.
pub fn copy_opt(o: &Option<String>) -> (r: Option<String>)
    ensures
        r == *o,
{
    match o {
        Some(s) => Some(s.clone()),
        None => None,
    }
}

/// The literal `a` followed by `b`.
pub fn cat(a: &str, b: &str) -> (r: String)
    ensures
        r@ == a@ + b@,
{
    let av = chars_of(a);
    let bv = chars_of(b);
    string_of(&concat(&av, &bv))
}

/// Bytes taken by `c` in UTF-8.
pub open spec fn utf8_width(c: char) -> nat {
    if (c as u32) < 0x80 {
        1
    } else if (c as u32) < 0x800 {
        2
    } else if (c as u32) < 0x10000 {
        3
    } else {
        4
    }
}

/// Bytes taken by `s` in UTF-8 (std's `str::len`).
pub open spec fn utf8_len(s: Seq<char>) -> nat
    decreases s.len(),
{
    if s.len() == 0 {
        0
    } else {
        utf8_len(s.drop_last()) + utf8_width(s.last())
    }
}

// ---------------------------------------------------------------------------
// Executable helpers
// ---------------------------------------------------------------------------

/// The characters of `s`, in order.
pub fn chars_of(s: &str) -> (v: Vec<char>)
    ensures
        v@ == s@,
{
    let mut v: Vec<char> = Vec::new();
    for c in it: s.chars()
        invariant
            v@ == it.seq().take(it.index() as int),
            it.seq() == s@,
    {
        v.push(c);
    }
    v
}

/// Appends `c` to `s` (std's `String::push`).
#[verifier::external_body]
pub(crate) fn push_char(s: &mut String, c: char)
    ensures
        final(s)@ == old(s)@.push(c),
{
    s.push(c);
}

/// A string holding exactly the characters `v`.
pub fn string_of(v: &Vec<char>) -> (s: String)
    ensures
        s@ == v@,
{
    let mut s = String::new();
    let mut i: usize = 0;
    while i < v.len()
        invariant
            i <= v.len(),
            s@ == v@.take(i as int),
        decreases v.len() - i,
    {
        push_char(&mut s, v[i]);
        i += 1;
        assert(v@.take(i as int) == v@.take(i - 1).push(v@[i - 1]));
    }
    assert(v@.take(v.len() as int) == v@);
    s
}

/// A string holding the literal `s`.
pub fn lit(s: &str) -> (r: String)
    ensures
        r@ == s@,
{
    s.to_string()
}

pub fn char_is_ascii_alnum(c: char) -> (b: bool)
    ensures
        b == is_ascii_alnum(c),
{
    ('0' <= c && c <= '9') || ('a' <= c && c <= 'z') || ('A' <= c && c <= 'Z')
}

pub fn char_ascii_lower(c: char) -> (r: char)
    ensures
        r == ascii_lower(c),
{
    if 'A' <= c && c <= 'Z' {
        ((c as u8) + 32) as char
    } else {
        c
    }
}

pub fn char_is_ws(c: char) -> (b: bool)
    ensures
        b == is_ws(c),
{
    let u = c as u32;
    (0x09 <= u && u <= 0x0d) || u == 0x20 || u == 0x85 || u == 0xa0 || u == 0x1680 || (0x2000 <= u
        && u <= 0x200a) || u == 0x2028 || u == 0x2029 || u == 0x202f || u == 0x205f || u == 0x3000
}

/// Whether `a` and `b` hold the same characters.
pub fn eq(a: &Vec<char>, b: &Vec<char>) -> (r: bool)
    ensures
        r == (a@ == b@),
{
    if a.len() != b.len() {
        return false;
    }
    let mut i: usize = 0;
    while i < a.len()
        invariant
            a.len() == b.len(),
            i <= a.len(),
            forall|j: int| 0 <= j < i ==> a@[j] == b@[j],
        decreases a.len() - i,
    {
        if a[i] != b[i] {
            return false;
        }
        i += 1;
    }
    assert(a@ =~= b@);
    true
}

/// Whether `a` holds the characters of the literal `b`.
pub fn eq_str(a: &Vec<char>, b: &str) -> (r: bool)
    ensures
        r == (a@ == b@),
{
    let bv = chars_of(b);
    eq(a, &bv)
}

/// A copy of `v`.
pub fn copy(v: &Vec<char>) -> (r: Vec<char>)
    ensures
        r@ == v@,
{
    let mut r: Vec<char> = Vec::new();
    let mut i: usize = 0;
    while i < v.len()
        invariant
            i <= v.len(),
            r@ == v@.take(i as int),
        decreases v.len() - i,
    {
        r.push(v[i]);
        i += 1;
        assert(v@.take(i as int) == v@.take(i - 1).push(v@[i - 1]));
    }
    assert(v@.take(v.len() as int) == v@);
    r
}

/// `a` followed by `b`.
pub fn concat(a: &Vec<char>, b: &Vec<char>) -> (r: Vec<char>)
    ensures
        r@ == a@ + b@,
{
    let mut r = copy(a);
    let mut i: usize = 0;
    while i < b.len()
        invariant
            i <= b.len(),
            r@ == a@ + b@.take(i as int),
        decreases b.len() - i,
    {
        r.push(b[i]);
        i += 1;
        assert(b@.take(i as int) == b@.take(i - 1).push(b@[i - 1]));
    }
    assert(b@.take(b.len() as int) == b@);
    r
}

/// Appends the characters of `b` to `a`.
pub fn append(a: &mut Vec<char>, b: &Vec<char>)
    ensures
        final(a)@ == old(a)@ + b@,
{
    let mut i: usize = 0;
    while i < b.len()
        invariant
            i <= b.len(),
            a@ == old(a)@ + b@.take(i as int),
        decreases b.len() - i,
    {
        a.push(b[i]);
        i += 1;
        assert(b@.take(i as int) == b@.take(i - 1).push(b@[i - 1]));
    }
    assert(b@.take(b.len() as int) == b@);
}

/// Appends the characters of the literal `b` to `a`.
pub fn append_str(a: &mut Vec<char>, b: &str)
    ensures
        final(a)@ == old(a)@ + b@,
{
    let bv = chars_of(b);
    append(a, &bv);
}

/// `s` in ASCII lowercase.
pub fn to_lower(s: &Vec<char>) -> (r: Vec<char>)
    ensures
        r@ == lower(s@),
{
    let mut r: Vec<char> = Vec::new();
    let mut i: usize = 0;
    while i < s.len()
        invariant
            i <= s.len(),
            r@ == lower(s@.take(i as int)),
        decreases s.len() - i,
    {
        r.push(char_ascii_lower(s[i]));
        i += 1;
        assert(lower(s@.take(i as int)) =~= lower(s@.take(i - 1)).push(ascii_lower(s@[i - 1])));
    }
    assert(s@.take(s.len() as int) == s@);
    r
}

proof fn lemma_trim_start_skip(s: Seq<char>, i: int)
    requires
        0 <= i <= s.len(),
        forall|j: int| 0 <= j < i ==> is_ws(s[j]),
    ensures
        trim_start(s) == trim_start(s.skip(i)),
    decreases i,
{
    if i > 0 {
        assert(s.skip(1) == s.drop_first());
        lemma_trim_start_skip(s.drop_first(), i - 1);
        assert(s.drop_first().skip(i - 1) == s.skip(i));
    } else {
        assert(s.skip(0) == s);
    }
}

proof fn lemma_trim_end_take(s: Seq<char>, j: int)
    requires
        0 <= j <= s.len(),
        forall|k: int| j <= k < s.len() ==> is_ws(s[k]),
    ensures
        trim_end(s) == trim_end(s.take(j)),
    decreases s.len() - j,
{
    if j < s.len() {
        assert(s.take(s.len() - 1) == s.drop_last());
        lemma_trim_end_take(s.drop_last(), j);
        assert(s.drop_last().take(j) == s.take(j));
    } else {
        assert(s.take(j) == s);
    }
}

/// `s` without leading and trailing whitespace.
pub fn trimmed(s: &Vec<char>) -> (r: Vec<char>)
    ensures
        r@ == trim(s@),
{
    let mut i: usize = 0;
    while i < s.len() && char_is_ws(s[i])
        invariant
            i <= s.len(),
            forall|j: int| 0 <= j < i ==> is_ws(s@[j]),
        decreases s.len() - i,
    {
        i += 1;
    }
    proof {
        lemma_trim_start_skip(s@, i as int);
    }
    let ghost t = s@.skip(i as int);
    assert(t.len() == 0 || !is_ws(t[0]));
    assert(trim_start(t) == t);
    let mut j: usize = s.len();
    while j > i && char_is_ws(s[j - 1])
        invariant
            i <= j <= s.len(),
            forall|k: int| j <= k < s.len() ==> is_ws(s@[k]),
        decreases j,
    {
        j -= 1;
    }
    proof {
        let n = j - i;
        lemma_trim_end_take(t, n);
        assert(t.take(n) == s@.subrange(i as int, j as int));
    }
    let mut r: Vec<char> = Vec::new();
    let mut k: usize = i;
    while k < j
        invariant
            i <= k <= j <= s.len(),
            r@ == s@.subrange(i as int, k as int),
        decreases j - k,
    {
        r.push(s[k]);
        k += 1;
        assert(s@.subrange(i as int, k as int) == s@.subrange(i as int, k - 1).push(s@[k - 1]));
    }
    proof {
        let tt = s@.subrange(i as int, j as int);
        if tt.len() > 0 {
            assert(tt.last() == s@[j - 1]);
        }
        assert(trim_end(tt) == tt);
    }
    r
}

/// Whether `c` occurs in `s`.
pub fn has_char(s: &Vec<char>, c: char) -> (b: bool)
    ensures
        b == s@.contains(c),
{
    let mut i: usize = 0;
    while i < s.len()
        invariant
            i <= s.len(),
            forall|j: int| 0 <= j < i ==> s@[j] != c,
        decreases s.len() - i,
    {
        if s[i] == c {
            assert(s@[i as int] == c);
            return true;
        }
        i += 1;
    }
    false
}

/// Whether `s` starts with `p`.
pub fn has_prefix(s: &Vec<char>, p: &Vec<char>) -> (b: bool)
    ensures
        b == starts_with(s@, p@),
{
    if p.len() > s.len() {
        return false;
    }
    let mut i: usize = 0;
    while i < p.len()
        invariant
            p.len() <= s.len(),
            i <= p.len(),
            forall|j: int| 0 <= j < i ==> s@[j] == p@[j],
        decreases p.len() - i,
    {
        if s[i] != p[i] {
            assert(s@.take(p.len() as int)[i as int] != p@[i as int]);
            return false;
        }
        i += 1;
    }
    assert(s@.take(p.len() as int) =~= p@);
    true
}

/// Whether `s` starts with the literal `p`.
pub fn has_prefix_str(s: &Vec<char>, p: &str) -> (b: bool)
    ensures
        b == starts_with(s@, p@),
{
    let pv = chars_of(p);
    has_prefix(s, &pv)
}

/// Whether `s` ends with `p`.
pub fn has_suffix(s: &Vec<char>, p: &Vec<char>) -> (b: bool)
    ensures
        b == ends_with(s@, p@),
{
    if p.len() > s.len() {
        return false;
    }
    let off = s.len() - p.len();
    let mut i: usize = 0;
    while i < p.len()
        invariant
            p.len() <= s.len(),
            off == s.len() - p.len(),
            i <= p.len(),
            forall|j: int| 0 <= j < i ==> s@[off + j] == p@[j],
        decreases p.len() - i,
    {
        if s[off + i] != p[i] {
            assert(s@.skip(off as int)[i as int] != p@[i as int]);
            return false;
        }
        i += 1;
    }
    assert(s@.skip(off as int) =~= p@);
    true
}

/// Whether `s` ends with the literal `p`.
pub fn has_suffix_str(s: &Vec<char>, p: &str) -> (b: bool)
    ensures
        b == ends_with(s@, p@),
{
    let pv = chars_of(p);
    has_suffix(s, &pv)
}

/// Whether `p` occurs in `s` at position `i`.
pub fn matches_at(s: &Vec<char>, p: &Vec<char>, i: usize) -> (b: bool)
    ensures
        b == occurs_at(s@, p@, i as int),
{
    if i > s.len() || p.len() > s.len() - i {
        return false;
    }
    let mut k: usize = 0;
    while k < p.len()
        invariant
            i + p.len() <= s.len(),
            k <= p.len(),
            forall|j: int| 0 <= j < k ==> s@[i + j] == p@[j],
        decreases p.len() - k,
    {
        if s[i + k] != p[k] {
            assert(s@.subrange(i as int, i + p.len())[k as int] != p@[k as int]);
            return false;
        }
        k += 1;
    }
    assert(s@.subrange(i as int, i + p.len()) =~= p@);
    true
}

/// The first position at which `p` occurs in `s`, if any (std's `str::find`).
pub fn find(s: &Vec<char>, p: &Vec<char>) -> (r: Option<usize>)
    ensures
        match r {
            Some(i) => occurs_at(s@, p@, i as int) && forall|j: int|
                0 <= j < i ==> !occurs_at(s@, p@, j),
            None => !contains_seq(s@, p@),
        },
{
    if p.len() > s.len() {
        return None;
    }
    if p.len() == 0 {
        assert(s@.subrange(0, 0) =~= p@);
        return Some(0);
    }
    let stop = s.len() - p.len() + 1;
    let mut i: usize = 0;
    while i < stop
        invariant
            stop == s.len() - p.len() + 1,
            forall|j: int| 0 <= j < i ==> !occurs_at(s@, p@, j),
        decreases stop - i,
    {
        if matches_at(s, p, i) {
            return Some(i);
        }
        i += 1;
    }
    None
}

/// Whether `p` occurs in `s`.
pub fn contains(s: &Vec<char>, p: &Vec<char>) -> (b: bool)
    ensures
        b == contains_seq(s@, p@),
{
    match find(s, p) {
        Some(_) => true,
        None => false,
    }
}

/// Whether the literal `p` occurs in `s`.
pub fn contains_str(s: &Vec<char>, p: &str) -> (b: bool)
    ensures
        b == contains_seq(s@, p@),
{
    let pv = chars_of(p);
    contains(s, &pv)
}

/// The pieces of `s` between occurrences of `c`.
pub fn split_on(s: &Vec<char>, c: char) -> (r: Vec<Vec<char>>)
    ensures
        views(r@) == split(s@, c),
{
    let mut done: Vec<Vec<char>> = Vec::new();
    let mut cur: Vec<char> = Vec::new();
    let mut i: usize = 0;
    assert(s@.take(0) =~= Seq::<char>::empty());
    assert(views(done@).push(cur@) =~= seq![Seq::<char>::empty()]);
    while i < s.len()
        invariant
            i <= s.len(),
            views(done@).push(cur@) == split(s@.take(i as int), c),
        decreases s.len() - i,
    {
        let ghost before = s@.take(i as int);
        let ghost d0 = done@;
        let ghost c0 = cur@;
        let ch = s[i];
        assert(s@.take(i + 1).drop_last() =~= before);
        assert(s@.take(i + 1).last() == ch);
        if ch == c {
            done.push(cur);
            cur = Vec::new();
            assert(views(done@) =~= views(d0).push(c0));
            assert(views(done@).push(cur@) =~= views(d0).push(c0).push(Seq::empty()));
        } else {
            cur.push(ch);
            assert(views(done@).push(cur@) =~= views(d0).push(c0).update(
                views(d0).push(c0).len() - 1,
                c0.push(ch),
            ));
        }
        i += 1;
    }
    assert(s@.take(s.len() as int) == s@);
    done.push(cur);
    assert(views(done@) =~= views(done@.drop_last()).push(done@.last()@));
    done
}

/// `parts` joined with `sep`.
pub fn join_with(parts: &Vec<Vec<char>>, sep: &Vec<char>) -> (r: Vec<char>)
    ensures
        r@ == join(views(parts@), sep@),
{
    let mut r: Vec<char> = Vec::new();
    let mut i: usize = 0;
    while i < parts.len()
        invariant
            i <= parts.len(),
            r@ == join(views(parts@).take(i as int), sep@),
        decreases parts.len() - i,
    {
        let ghost prev = views(parts@).take(i as int);
        assert(views(parts@).take(i + 1).drop_last() =~= prev);
        if i > 0 {
            append(&mut r, sep);
        }
        append(&mut r, &parts[i]);
        i += 1;
        proof {
            let cur = views(parts@).take(i as int);
            if i == 1 {
                assert(cur.len() == 1);
                assert(prev.len() == 0);
                assert(r@ =~= cur[0]);
            } else {
                assert(r@ =~= join(prev, sep@) + sep@ + cur.last());
            }
        }
    }
    assert(views(parts@).take(parts.len() as int) =~= views(parts@));
    r
}

/// `parts` joined with the literal `sep`.
pub fn join_str(parts: &Vec<Vec<char>>, sep: &str) -> (r: Vec<char>)
    ensures
        r@ == join(views(parts@), sep@),
{
    let sv = chars_of(sep);
    join_with(parts, &sv)
}

/// Bytes taken by `s` in UTF-8, when at most `cap`; otherwise `None`.
pub fn utf8_len_capped(s: &Vec<char>, cap: usize) -> (r: Option<usize>)
    ensures
        match r {
            Some(n) => n == utf8_len(s@) && n <= cap,
            None => utf8_len(s@) > cap,
        },
{
    let mut n: usize = 0;
    let mut i: usize = 0;
    while i < s.len()
        invariant
            i <= s.len(),
            n == utf8_len(s@.take(i as int)),
            n <= cap,
        decreases s.len() - i,
    {
        let u = s[i] as u32;
        let w: usize = if u < 0x80 {
            1
        } else if u < 0x800 {
            2
        } else if u < 0x10000 {
            3
        } else {
            4
        };
        assert(s@.take(i + 1).drop_last() == s@.take(i as int));
        if w > cap - n {
            proof {
                lemma_utf8_len_prefix(s@, i + 1);
            }
            return None;
        }
        n = n + w;
        i += 1;
    }
    assert(s@.take(s.len() as int) == s@);
    Some(n)
}

/// The UTF-8 length of a prefix is at most that of the whole.
pub proof fn lemma_utf8_len_prefix(s: Seq<char>, i: int)
    requires
        0 <= i <= s.len(),
    ensures
        utf8_len(s.take(i)) <= utf8_len(s),
    decreases s.len() - i,
{
    if i < s.len() {
        lemma_utf8_len_prefix(s, i + 1);
        assert(s.take(i + 1).drop_last() == s.take(i));
    } else {
        assert(s.take(i) == s);
    }
}

pub proof fn lemma_split_nonempty(s: Seq<char>, c: char)
    ensures
        split(s, c).len() >= 1,
    decreases s.len(),
{
    if s.len() > 0 {
        lemma_split_nonempty(s.drop_last(), c);
    }
}

/// Text without the separator splits into itself alone.
pub proof fn lemma_split_lacking(x: Seq<char>, c: char)
    requires
        lacks(x, c),
    ensures
        split(x, c) == seq![x],
    decreases x.len(),
{
    if x.len() > 0 {
        let d = x.drop_last();
        assert(lacks(d, c));
        lemma_split_lacking(d, c);
        assert(x[x.len() - 1] != c);
        assert(d.push(x.last()) =~= x);
        assert(seq![d].update(0, d.push(x.last())) =~= seq![x]);
    } else {
        assert(x =~= Seq::<char>::empty());
    }
}

/// Splitting text joined at a separator splits each side.
pub proof fn lemma_split_concat(a: Seq<char>, b: Seq<char>, c: char)
    ensures
        split(a + seq![c] + b, c) == split(a, c) + split(b, c),
    decreases b.len(),
{
    lemma_split_nonempty(a, c);
    let ac = a + seq![c];
    if b.len() == 0 {
        assert(a + seq![c] + b =~= ac);
        assert(ac.drop_last() =~= a);
        assert(split(ac, c) == split(a, c).push(Seq::<char>::empty()));
        assert(split(b, c) == seq![Seq::<char>::empty()]);
        assert(split(a, c).push(Seq::<char>::empty()) =~= split(a, c) + seq![Seq::<char>::empty()]);
    } else {
        let bd = b.drop_last();
        let x = b.last();
        let s = a + seq![c] + b;
        assert(s.drop_last() =~= a + seq![c] + bd);
        assert(s.last() == x);
        lemma_split_concat(a, bd, c);
        lemma_split_nonempty(bd, c);
        let r = split(a + seq![c] + bd, c);
        assert(r == split(a, c) + split(bd, c));
        if x == c {
            assert(split(s, c) == r.push(Seq::<char>::empty()));
            assert(split(b, c) == split(bd, c).push(Seq::<char>::empty()));
            assert(r.push(Seq::<char>::empty()) =~= split(a, c) + split(bd, c).push(Seq::<char>::empty()));
        } else {
            let sb = split(bd, c);
            assert(split(s, c) == r.update(r.len() - 1, r.last().push(x)));
            assert(split(b, c) == sb.update(sb.len() - 1, sb.last().push(x)));
            assert(r.last() == sb.last());
            assert(r.update(r.len() - 1, r.last().push(x)) =~= split(a, c) + sb.update(
                sb.len() - 1,
                sb.last().push(x),
            ));
        }
    }
}

/// Joining pieces without the separator and splitting again gives them back.
pub proof fn lemma_split_join(ws: Seq<Seq<char>>, c: char)
    requires
        ws.len() >= 1,
        forall|k: int| 0 <= k < ws.len() ==> lacks(#[trigger] ws[k], c),
    ensures
        split(join(ws, seq![c]), c) == ws,
    decreases ws.len(),
{
    if ws.len() == 1 {
        lemma_split_lacking(ws[0], c);
        assert(seq![ws[0]] =~= ws);
    } else {
        let d = ws.drop_last();
        assert forall|k: int| 0 <= k < d.len() implies lacks(#[trigger] d[k], c) by {
            assert(d[k] == ws[k]);
        }
        lemma_split_join(d, c);
        assert(lacks(ws[ws.len() - 1], c));
        lemma_split_lacking(ws.last(), c);
        lemma_split_concat(join(d, seq![c]), ws.last(), c);
        assert(d + seq![ws.last()] =~= ws);
    }
}

/// `to` before every character of `s` and at its end.
fn interleave_exec(s: &Vec<char>, to: &Vec<char>) -> (r: Vec<char>)
    ensures
        r@ == interleave(s@, to@),
{
    let mut out: Vec<char> = Vec::new();
    let mut i: usize = 0;
    assert(s@.skip(0) == s@);
    assert(out@ + interleave(s@, to@) =~= interleave(s@, to@));
    while i < s.len()
        invariant
            i <= s.len(),
            out@ + interleave(s@.skip(i as int), to@) == interleave(s@, to@),
        decreases s.len() - i,
    {
        assert(s@.skip(i as int).drop_first() == s@.skip(i + 1));
        append(&mut out, to);
        out.push(s[i]);
        i += 1;
    }
    append(&mut out, to);
    assert(s@.skip(s.len() as int) =~= Seq::<char>::empty());
    out
}

/// Every non-overlapping occurrence of `from` in `s` replaced by `to`.
pub fn replace_all(s: &Vec<char>, from: &Vec<char>, to: &Vec<char>) -> (r: Vec<char>)
    ensures
        r@ == replace(s@, from@, to@),
{
    if from.len() == 0 {
        return interleave_exec(s, to);
    }
    let mut out: Vec<char> = Vec::new();
    let mut i: usize = 0;
    assert(s@.skip(0) == s@);
    assert(out@ + replace(s@, from@, to@) =~= replace(s@, from@, to@));
    while i < s.len()
        invariant
            i <= s.len(),
            from.len() > 0,
            out@ + replace(s@.skip(i as int), from@, to@) == replace(s@, from@, to@),
        decreases s.len() - i,
    {
        let ghost rest = s@.skip(i as int);
        if matches_at(s, from, i) {
            assert(rest.take(from.len() as int) =~= s@.subrange(i as int, i + from.len()));
            assert(rest.skip(from.len() as int) =~= s@.skip(i + from.len()));
            append(&mut out, to);
            assert(out@ + replace(s@.skip(i + from.len()), from@, to@) =~= replace(s@, from@, to@));
            i += from.len();
        } else {
            proof {
                if rest.len() >= from@.len() {
                    assert(rest.take(from.len() as int) =~= s@.subrange(i as int, i + from.len()));
                }
                assert(rest.drop_first() =~= s@.skip(i + 1));
            }
            out.push(s[i]);
            assert(out@ + replace(s@.skip(i + 1), from@, to@) =~= replace(s@, from@, to@));
            i += 1;
        }
    }
    assert(s@.skip(s.len() as int) =~= Seq::<char>::empty());
    out
}

/// Every occurrence of character `from` in `s` replaced by character `to`.
pub fn replace_char(s: &Vec<char>, from: char, to: char) -> (r: Vec<char>)
    ensures
        r@ == replace(s@, seq![from], seq![to]),
{
    let f: Vec<char> = vec![from];
    let t: Vec<char> = vec![to];
    assert(f@ =~= seq![from]);
    assert(t@ =~= seq![to]);
    replace_all(s, &f, &t)
}

/// The position of the first `c` in `s`, if any.
pub open spec fn index_of(s: Seq<char>, c: char) -> Option<int>
    decreases s.len(),
{
    if s.len() == 0 {
        None
    } else if s[0] == c {
        Some(0)
    } else {
        match index_of(s.drop_first(), c) {
            Some(i) => Some(i + 1),
            None => None,
        }
    }
}

/// The pieces of a split never hold the separator, and the first piece is
/// not empty when the text starts with another character.
pub proof fn lemma_split_pieces(s: Seq<char>, c: char)
    ensures
        forall|k: int| 0 <= k < split(s, c).len() ==> !(#[trigger] split(s, c)[k]).contains(c),
        s.len() > 0 && s[0] != c ==> split(s, c)[0].len() > 0,
    decreases s.len(),
{
    lemma_split_nonempty(s, c);
    if s.len() > 0 {
        let d = s.drop_last();
        let r = split(d, c);
        lemma_split_pieces(d, c);
        lemma_split_nonempty(d, c);
        if s.last() == c {
            assert(split(s, c) == r.push(Seq::<char>::empty()));
            assert forall|k: int| 0 <= k < split(s, c).len() implies !(#[trigger] split(s, c)[k]).contains(c) by {
                if k < r.len() {
                    assert(split(s, c)[k] == r[k]);
                }
            }
            if s[0] != c {
                assert(d.len() > 0);
                assert(d[0] == s[0]);
            }
        } else {
            let last = r.last().push(s.last());
            assert(split(s, c) == r.update(r.len() - 1, last));
            assert forall|k: int| 0 <= k < split(s, c).len() implies !(#[trigger] split(s, c)[k]).contains(c) by {
                if k < r.len() - 1 {
                    assert(split(s, c)[k] == r[k]);
                } else {
                    assert(split(s, c)[k] == last);
                    assert(!r.last().contains(c));
                    if last.contains(c) {
                        let j = choose|j: int| 0 <= j < last.len() && last[j] == c;
                        if j < r.last().len() {
                            assert(r.last()[j] == c);
                        }
                    }
                }
            }
            if s[0] != c && r.len() > 1 {
                assert(d.len() > 0) by {
                    if d.len() == 0 {
                        assert(split(d, c) =~= seq![Seq::<char>::empty()]);
                    }
                }
                assert(d[0] == s[0]);
            }
        }
    }
}

pub proof fn lemma_index_of(s: Seq<char>, c: char)
    ensures
        index_of(s, c) matches Some(i) ==> 0 <= i < s.len() && s[i] == c && forall|j: int|
            0 <= j < i ==> s[j] != c,
        index_of(s, c) is None ==> !s.contains(c),
    decreases s.len(),
{
    if s.len() > 0 && s[0] != c {
        lemma_index_of(s.drop_first(), c);
        if index_of(s.drop_first(), c) is None {
            assert forall|j: int| 0 <= j < s.len() implies s[j] != c by {
                if j > 0 {
                    assert(s[j] == s.drop_first()[j - 1]);
                }
            }
        } else {
            let i = index_of(s.drop_first(), c)->0;
            assert forall|j: int| 0 <= j < i + 1 implies s[j] != c by {
                if j > 0 {
                    assert(s[j] == s.drop_first()[j - 1]);
                }
            }
        }
    }
}

pub proof fn lemma_index_of_unique(s: Seq<char>, c: char, i: int)
    requires
        0 <= i < s.len(),
        s[i] == c,
        forall|j: int| 0 <= j < i ==> s[j] != c,
    ensures
        index_of(s, c) == Some(i),
    decreases s.len(),
{
    if i > 0 {
        assert forall|j: int| 0 <= j < i - 1 implies s.drop_first()[j] != c by {
            assert(s.drop_first()[j] == s[j + 1]);
        }
        lemma_index_of_unique(s.drop_first(), c, i - 1);
    }
}

/// The position of the first `c` in `s`, if any.
pub fn find_char(s: &Vec<char>, c: char) -> (r: Option<usize>)
    ensures
        r matches Some(i) ==> index_of(s@, c) == Some(i as int),
        r is None ==> index_of(s@, c) is None,
{
    let mut i: usize = 0;
    while i < s.len()
        invariant
            i <= s.len(),
            forall|j: int| 0 <= j < i ==> s@[j] != c,
        decreases s.len() - i,
    {
        if s[i] == c {
            proof {
                lemma_index_of_unique(s@, c, i as int);
            }
            return Some(i);
        }
        i += 1;
    }
    proof {
        lemma_index_of(s@, c);
        if index_of(s@, c) is Some {
            let k = index_of(s@, c)->0;
            assert(s@[k] == c);
        }
    }
    None
}

/// `s[from..to]`.
pub fn slice(s: &Vec<char>, from: usize, to: usize) -> (r: Vec<char>)
    requires
        from <= to <= s.len(),
    ensures
        r@ == s@.subrange(from as int, to as int),
{
    let mut r: Vec<char> = Vec::new();
    let mut k: usize = from;
    while k < to
        invariant
            from <= k <= to <= s.len(),
            r@ == s@.subrange(from as int, k as int),
        decreases to - k,
    {
        r.push(s[k]);
        k += 1;
        assert(s@.subrange(from as int, k as int) == s@.subrange(from as int, k - 1).push(s@[k - 1]));
    }
    r
}

/// The decimal digits of `n`.
pub fn decimal_of(n: u64) -> (r: Vec<char>)
    ensures
        r@ == decimal(n as nat),
    decreases n,
{
    let d = ((n % 10) as u8 + 48u8) as char;
    assert(d == digit_char((n % 10) as nat));
    if n < 10 {
        vec![d]
    } else {
        let mut v = decimal_of(n / 10);
        v.push(d);
        v
    }
}

/// The decimal text of a signed number: a `-` before the digits of its magnitude.
pub open spec fn signed_decimal(n: int) -> Seq<char> {
    if n < 0 {
        seq!['-'] + decimal((-n) as nat)
    } else {
        decimal(n as nat)
    }
}

pub fn signed_decimal_of(n: i64) -> (r: Vec<char>)
    ensures
        r@ == signed_decimal(n as int),
{
    if n < 0 {
        let mag: u64 = if n == i64::MIN {
            9223372036854775808u64
        } else {
            (-n) as u64
        };
        let mut v: Vec<char> = vec!['-'];
        let ds = decimal_of(mag);
        append(&mut v, &ds);
        assert(v@ =~= seq!['-'] + decimal((-(n as int)) as nat));
        v
    } else {
        decimal_of(n as u64)
    }
}

/// The value std's `str::parse::<u16>` gives: an optional `+` then at least
/// one decimal digit, with a value that fits in 16 bits.
pub open spec fn parse_u16(s: Seq<char>) -> Option<u16> {
    parse_digits(strip_plus(s))
}

/// `s` without one leading `+`.
pub open spec fn strip_plus(s: Seq<char>) -> Seq<char> {
    if s.len() > 0 && s[0] == '+' {
        s.drop_first()
    } else {
        s
    }
}

/// The 16-bit value the decimal digits `ds` write, if they are digits and it fits.
pub open spec fn parse_digits(ds: Seq<char>) -> Option<u16> {
    if ds.len() > 0 && (forall|i: int| 0 <= i < ds.len() ==> is_digit(#[trigger] ds[i]))
        && digits_value(ds) <= 65535 {
        Some(digits_value(ds) as u16)
    } else {
        None
    }
}

pub open spec fn is_digit(c: char) -> bool {
    '0' as u32 <= c as u32 <= '9' as u32
}

/// The number the decimal digits `ds` write.
pub open spec fn digits_value(ds: Seq<char>) -> nat
    decreases ds.len(),
{
    if ds.len() == 0 {
        0
    } else {
        digits_value(ds.drop_last()) * 10 + ((ds.last() as u32) - ('0' as u32)) as nat
    }
}

pub proof fn lemma_digits_value_grows(ds: Seq<char>, i: int)
    requires
        0 <= i <= ds.len(),
        forall|j: int| 0 <= j < ds.len() ==> is_digit(#[trigger] ds[j]),
    ensures
        digits_value(ds.take(i)) <= digits_value(ds),
    decreases ds.len() - i,
{
    if i < ds.len() {
        lemma_digits_value_grows(ds, i + 1);
        assert(ds.take(i + 1).drop_last() == ds.take(i));
    } else {
        assert(ds.take(i) == ds);
    }
}

pub fn parse_port(s: &str) -> (r: Option<u16>)
    ensures
        r == parse_u16(s@),
{
    let v = chars_of(s);
    let start: usize = if v.len() > 0 && v[0] == '+' {
        1
    } else {
        0
    };
    let ghost ds = strip_plus(v@);
    assert(ds == v@.skip(start as int));
    if start >= v.len() {
        return None;
    }
    let mut acc: u32 = 0;
    let mut i: usize = start;
    while i < v.len()
        invariant
            start <= i <= v.len(),
            v@ == s@,
            ds == v@.skip(start as int),
            ds == strip_plus(s@),
            forall|j: int| start <= j < i ==> is_digit(#[trigger] v@[j]),
            acc == digits_value(v@.subrange(start as int, i as int)),
            acc <= 65535,
        decreases v.len() - i,
    {
        let c = v[i];
        let u = c as u32;
        if !(48 <= u && u <= 57) {
            proof {
                assert(ds[i - start] == c);
                assert(!is_digit(ds[i - start]));
                assert(!(forall|j: int| 0 <= j < ds.len() ==> is_digit(#[trigger] ds[j])));
                assert(parse_digits(ds) is None);
            }
            return None;
        }
        let d = u - 48;
        assert(v@.subrange(start as int, i + 1).drop_last() == v@.subrange(start as int, i as int));
        if acc * 10 + d > 65535 {
            proof {
                assert forall|j: int| 0 <= j < (i + 1 - start) implies is_digit(
                    #[trigger] v@.subrange(start as int, i + 1)[j],
                ) by {
                    assert(v@.subrange(start as int, i + 1)[j] == v@[start + j]);
                }
                if forall|j: int| 0 <= j < ds.len() ==> is_digit(#[trigger] ds[j]) {
                    lemma_digits_value_grows(ds, (i + 1 - start) as int);
                    assert(ds.take((i + 1 - start) as int) == v@.subrange(start as int, i + 1));
                    assert(digits_value(v@.subrange(start as int, i + 1)) == acc * 10 + d);
                    assert(digits_value(ds) > 65535);
                }
                assert(parse_digits(ds) is None);
            }
            return None;
        }
        acc = acc * 10 + d;
        i += 1;
    }
    assert(v@.subrange(start as int, v.len() as int) == ds);
    assert forall|j: int| 0 <= j < ds.len() implies is_digit(#[trigger] ds[j]) by {
        assert(ds[j] == v@[start + j]);
    }
    Some(acc as u16)
}

/// `p` first occurs in `s` at `i`.
pub open spec fn first_at(s: Seq<char>, p: Seq<char>, i: int) -> bool {
    occurs_at(s, p, i) && forall|j: int| 0 <= j < i ==> !occurs_at(s, p, j)
}

/// The position of the first occurrence of `p` in `s` (std's `str::find`).
pub open spec fn first_occurrence(s: Seq<char>, p: Seq<char>) -> Option<int> {
    if exists|i: int| first_at(s, p, i) {
        Some(choose|i: int| first_at(s, p, i))
    } else {
        None
    }
}

/// The first position at which `p` occurs in `s`.
pub fn find_first(s: &Vec<char>, p: &Vec<char>) -> (r: Option<usize>)
    ensures
        match r {
            Some(i) => first_occurrence(s@, p@) == Some(i as int),
            None => first_occurrence(s@, p@) is None,
        },
{
    match find(s, p) {
        Some(i) => {
            assert(first_at(s@, p@, i as int));
            let ghost c = choose|c: int| first_at(s@, p@, c);
            assert(c == i) by {
                if c < i {
                } else if c > i {
                    assert(occurs_at(s@, p@, i as int));
                }
            }
            Some(i)
        },
        None => {
            assert(!exists|i: int| first_at(s@, p@, i));
            None
        },
    }
}

/// The pieces of `s` between the non-overlapping occurrences of the
/// non-empty pattern `p`, scanning from the left (std's `str::split` with a
/// string pattern).
pub open spec fn split_str(s: Seq<char>, p: Seq<char>) -> Seq<Seq<char>>
    decreases s.len(),
{
    if p.len() == 0 || s.len() < p.len() {
        seq![s]
    } else if s.take(p.len() as int) == p {
        seq![Seq::empty()] + split_str(s.skip(p.len() as int), p)
    } else {
        let r = split_str(s.drop_first(), p);
        r.update(0, seq![s[0]] + r[0])
    }
}

pub proof fn lemma_split_str_nonempty(s: Seq<char>, p: Seq<char>)
    ensures
        split_str(s, p).len() >= 1,
    decreases s.len(),
{
    if p.len() == 0 || s.len() < p.len() {
    } else if s.take(p.len() as int) == p {
    } else {
        lemma_split_str_nonempty(s.drop_first(), p);
    }
}

/// The pieces of `s` between occurrences of the non-empty pattern `p`.
pub fn split_str_on(s: &Vec<char>, p: &Vec<char>) -> (r: Vec<Vec<char>>)
    requires
        p.len() > 0,
    ensures
        views(r@) == split_str(s@, p@),
{
    let mut out: Vec<Vec<char>> = Vec::new();
    let mut cur: Vec<char> = Vec::new();
    let mut i: usize = 0;
    proof {
        lemma_split_str_nonempty(s@, p@);
        assert(s@.skip(0) =~= s@);
        let r = split_str(s@, p@);
        assert(r =~= views(out@) + seq![cur@ + r[0]] + r.drop_first());
    }
    while i < s.len()
        invariant
            i <= s.len(),
            p.len() > 0,
            ({
                let r = split_str(s@.skip(i as int), p@);
                split_str(s@, p@) == views(out@) + seq![cur@ + r[0]] + r.drop_first()
            }),
        ensures
            i <= s.len(),
            s.len() - i < p.len(),
            ({
                let r = split_str(s@.skip(i as int), p@);
                split_str(s@, p@) == views(out@) + seq![cur@ + r[0]] + r.drop_first()
            }),
        decreases s.len() - i,
    {
        let ghost rest = s@.skip(i as int);
        let ghost d0 = views(out@);
        let ghost c0 = cur@;
        proof {
            lemma_split_str_nonempty(rest, p@);
        }
        if s.len() - i < p.len() {
            break;
        }
        if matches_at(s, p, i) {
            assert(rest.take(p.len() as int) =~= p@);
            assert(rest.skip(p.len() as int) =~= s@.skip(i + p.len()));
            out.push(cur);
            cur = Vec::new();
            i += p.len();
            proof {
                let x = split_str(s@.skip(i as int), p@);
                lemma_split_str_nonempty(s@.skip(i as int), p@);
                assert(views(out@) =~= d0.push(c0));
                assert(split_str(rest, p@) =~= seq![Seq::<char>::empty()] + x);
                assert(d0 + seq![c0 + split_str(rest, p@)[0]] + split_str(rest, p@).drop_first()
                    =~= views(out@) + seq![cur@ + x[0]] + x.drop_first());
            }
        } else {
            assert(!(rest.take(p.len() as int) =~= p@)) by {
                if rest.take(p.len() as int) =~= p@ {
                    assert(s@.subrange(i as int, i + p.len()) =~= rest.take(p.len() as int));
                }
            }
            assert(rest.drop_first() =~= s@.skip(i + 1));
            let ch = s[i];
            cur.push(ch);
            i += 1;
            proof {
                let x = split_str(s@.skip(i as int), p@);
                lemma_split_str_nonempty(s@.skip(i as int), p@);
                assert(split_str(rest, p@) == x.update(0, seq![ch] + x[0]));
                assert(c0 + (seq![ch] + x[0]) =~= cur@ + x[0]);
                assert(views(out@) =~= d0);
                assert(x.update(0, seq![ch] + x[0]).drop_first() =~= x.drop_first());
                assert(d0 + seq![c0 + split_str(rest, p@)[0]] + split_str(rest, p@).drop_first()
                    =~= views(out@) + seq![cur@ + x[0]] + x.drop_first());
            }
        }
    }
    proof {
        let rest = s@.skip(i as int);
        assert(split_str(rest, p@) == seq![rest]);
    }
    let rest = slice(s, i, s.len());
    assert(rest@ =~= s@.skip(i as int));
    append(&mut cur, &rest);
    let ghost d0 = views(out@);
    out.push(cur);
    assert(views(out@) =~= d0.push(out@.last()@));
    assert(views(out@) =~= split_str(s@, p@));
    out
}

/// The first `n` bytes of `id` when they end on a character boundary;
/// otherwise all of `id` (std's `str::get(..n)` with a fallback).
pub open spec fn byte_prefix_or_all(id: Seq<char>, n: nat) -> Seq<char> {
    if exists|k: int| 0 <= k <= id.len() && utf8_len(#[trigger] id.take(k)) == n {
        id.take(choose|k: int| 0 <= k <= id.len() && utf8_len(#[trigger] id.take(k)) == n)
    } else {
        id
    }
}

/// Longer prefixes take more bytes.
pub proof fn lemma_utf8_len_strict(s: Seq<char>, a: int, b: int)
    requires
        0 <= a < b <= s.len(),
    ensures
        utf8_len(s.take(a)) < utf8_len(s.take(b)),
    decreases b - a,
{
    assert(s.take(b).drop_last() == s.take(b - 1));
    if a < b - 1 {
        lemma_utf8_len_strict(s, a, b - 1);
    }
}

/// The first `n` bytes of `cs` when they end on a character boundary,
/// otherwise all of `cs` (see [`byte_prefix_or_all`]).
pub fn byte_prefix(cs: &Vec<char>, n: usize) -> (r: Vec<char>)
    ensures
        r@ == byte_prefix_or_all(cs@, n as nat),
{
    let mut acc: u128 = 0;
    let mut k: usize = 0;
    while k < cs.len() && acc < n as u128
        invariant
            k <= cs.len(),
            acc == utf8_len(cs@.take(k as int)),
            acc <= n + 3,
            forall|j: int| 0 <= j < k ==> utf8_len(#[trigger] cs@.take(j)) < n,
        decreases cs.len() - k,
    {
        assert(cs@.take(k + 1).drop_last() == cs@.take(k as int));
        let u = cs[k] as u32;
        let w: u128 = if u < 0x80 {
            1
        } else if u < 0x800 {
            2
        } else if u < 0x10000 {
            3
        } else {
            4
        };
        acc = acc + w;
        k += 1;
    }
    if acc == n as u128 {
        let r = slice(cs, 0, k);
        assert(r@ =~= cs@.take(k as int));
        proof {
            let kk = choose|kk: int| 0 <= kk <= cs@.len() && utf8_len(#[trigger] cs@.take(kk)) == n;
            if kk < k {
                lemma_utf8_len_strict(cs@, kk, k as int);
            } else if kk > k {
                lemma_utf8_len_strict(cs@, k as int, kk);
            }
        }
        r
    } else {
        proof {
            assert forall|kk: int| 0 <= kk <= cs@.len() implies utf8_len(
                #[trigger] cs@.take(kk),
            ) != n by {
                if kk < k {
                } else if kk > k {
                    lemma_utf8_len_strict(cs@, k as int, kk);
                } else {
                }
            }
        }
        copy(cs)
    }
}

/// `c` does not occur in `s`.
pub open spec fn lacks(s: Seq<char>, c: char) -> bool {
    forall|i: int| 0 <= i < s.len() ==> s[i] != c
}

/// The number of occurrences of `c` in `s`.
pub open spec fn count_char(s: Seq<char>, c: char) -> nat
    decreases s.len(),
{
    if s.len() == 0 {
        0
    } else {
        count_char(s.drop_last(), c) + if s.last() == c {
            1nat
        } else {
            0nat
        }
    }
}

pub proof fn lemma_concat_lacks(a: Seq<char>, b: Seq<char>, d: char)
    requires
        lacks(a, d),
        lacks(b, d),
    ensures
        lacks(a + b, d),
{
    assert forall|i: int| 0 <= i < (a + b).len() implies (a + b)[i] != d by {
        if i < a.len() {
            assert((a + b)[i] == a[i]);
        } else {
            assert((a + b)[i] == b[i - a.len()]);
        }
    }
}

pub proof fn lemma_count_concat(a: Seq<char>, b: Seq<char>, c: char)
    ensures
        count_char(a + b, c) == count_char(a, c) + count_char(b, c),
    decreases b.len(),
{
    if b.len() == 0 {
        assert(a + b =~= a);
    } else {
        lemma_count_concat(a, b.drop_last(), c);
        assert((a + b).drop_last() =~= a + b.drop_last());
    }
}

pub proof fn lemma_count_lacks(s: Seq<char>, c: char)
    requires
        lacks(s, c),
    ensures
        count_char(s, c) == 0,
    decreases s.len(),
{
    if s.len() > 0 {
        lemma_count_lacks(s.drop_last(), c);
    }
}

/// Every piece of `split(s, c)` lacks what `s` lacks.
pub proof fn lemma_split_lacks(s: Seq<char>, c: char, d: char)
    requires
        lacks(s, d),
    ensures
        forall|k: int| 0 <= k < split(s, c).len() ==> lacks(#[trigger] split(s, c)[k], d),
    decreases s.len(),
{
    if s.len() > 0 {
        lemma_split_lacks(s.drop_last(), c, d);
        let r = split(s.drop_last(), c);
        lemma_split_nonempty(s.drop_last(), c);
        if s.last() != c {
            assert(lacks(r.last().push(s.last()), d));
        }
    }
}

proof fn lemma_interleave_lacks(s: Seq<char>, to: Seq<char>, d: char)
    requires
        lacks(s, d),
        lacks(to, d),
    ensures
        lacks(interleave(s, to), d),
    decreases s.len(),
{
    if s.len() > 0 {
        lemma_interleave_lacks(s.drop_first(), to, d);
    }
}

/// Replacing with text that lacks `d` keeps `d` out.
pub proof fn lemma_replace_lacks(s: Seq<char>, from: Seq<char>, to: Seq<char>, d: char)
    requires
        lacks(s, d),
        lacks(to, d),
    ensures
        lacks(replace(s, from, to), d),
    decreases s.len(),
{
    if from.len() == 0 {
        lemma_interleave_lacks(s, to, d);
    } else if s.len() < from.len() {
    } else if s.take(from.len() as int) == from {
        lemma_replace_lacks(s.skip(from.len() as int), from, to, d);
    } else {
        lemma_replace_lacks(s.drop_first(), from, to, d);
    }
}

/// Replacing every `c` by text without `c` leaves no `c`.
pub proof fn lemma_replace_removes(s: Seq<char>, c: char, to: Seq<char>)
    requires
        lacks(to, c),
    ensures
        lacks(replace(s, seq![c], to), c),
    decreases s.len(),
{
    if s.len() >= 1 {
        if s.take(1) == seq![c] {
            lemma_replace_removes(s.skip(1), c, to);
            lemma_concat_lacks(to, replace(s.skip(1), seq![c], to), c);
        } else {
            assert(s[0] != c) by {
                if s[0] == c {
                    assert(s.take(1) =~= seq![c]);
                }
            }
            lemma_replace_removes(s.drop_first(), c, to);
            lemma_concat_lacks(seq![s[0]], replace(s.drop_first(), seq![c], to), c);
        }
    }
}

/// `s` in Unicode lowercase, as std's `str::to_lowercase` computes it.
pub uninterp spec fn unicode_lower(s: Seq<char>) -> Seq<char>;

/// Calls std's `str::to_lowercase`; the result is named [`unicode_lower`].
#[verifier::external_body]
pub(crate) fn to_lowercase(s: &str) -> (r: String)
    ensures
        r@ == unicode_lower(s@),
{
    s.to_lowercase()
}

/// The value std's `str::parse::<i64>` gives: an optional sign then at
/// least one decimal digit, with a value in the range of `i64`.
pub open spec fn parse_i64_spec(s: Seq<char>) -> Option<i64> {
    if s.len() > 0 && s[0] == '-' {
        let ds = s.drop_first();
        if ds.len() > 0 && (forall|i: int| 0 <= i < ds.len() ==> is_digit(#[trigger] ds[i]))
            && digits_value(ds) <= 0x8000_0000_0000_0000 {
            Some((0 - digits_value(ds)) as i64)
        } else {
            None
        }
    } else {
        let ds = strip_plus(s);
        if ds.len() > 0 && (forall|i: int| 0 <= i < ds.len() ==> is_digit(#[trigger] ds[i]))
            && digits_value(ds) <= 0x7fff_ffff_ffff_ffff {
            Some(digits_value(ds) as i64)
        } else {
            None
        }
    }
}

/// The value of the digits `v[start..]` when they are all digits, at
/// least one, and the value is at most `cap`.
fn digits_capped(v: &Vec<char>, start: usize, cap: u64) -> (r: Option<u64>)
    requires
        start <= v.len(),
        cap >= 9,
    ensures
        ({
            let ds = v@.skip(start as int);
            r == if ds.len() > 0 && (forall|i: int| 0 <= i < ds.len() ==> is_digit(#[trigger] ds[i]))
                && digits_value(ds) <= cap {
                Some(digits_value(ds) as u64)
            } else {
                None
            }
        }),
{
    let ghost ds = v@.skip(start as int);
    if start >= v.len() {
        return None;
    }
    let mut acc: u64 = 0;
    let mut i: usize = start;
    while i < v.len()
        invariant
            start <= i <= v.len(),
            cap >= 9,
            ds == v@.skip(start as int),
            forall|j: int| start <= j < i ==> is_digit(#[trigger] v@[j]),
            acc == digits_value(v@.subrange(start as int, i as int)),
            acc <= cap,
        decreases v.len() - i,
    {
        let c = v[i];
        let u = c as u32;
        if !(48 <= u && u <= 57) {
            proof {
                assert(ds[i - start] == c);
                assert(!is_digit(ds[i - start]));
            }
            return None;
        }
        let d = (u - 48) as u64;
        assert(v@.subrange(start as int, i + 1).drop_last() == v@.subrange(start as int, i as int));
        if acc > (cap - d) / 10 {
            proof {
                assert(acc * 10 + d > cap) by (nonlinear_arith)
                    requires
                        acc > (cap - d) / 10,
                        d <= 9,
                        d <= cap,
                ;
                assert forall|j: int| 0 <= j < (i + 1 - start) implies is_digit(
                    #[trigger] v@.subrange(start as int, i + 1)[j],
                ) by {
                    assert(v@.subrange(start as int, i + 1)[j] == v@[start + j]);
                }
                if forall|j: int| 0 <= j < ds.len() ==> is_digit(#[trigger] ds[j]) {
                    lemma_digits_value_grows(ds, (i + 1 - start) as int);
                    assert(ds.take((i + 1 - start) as int) == v@.subrange(start as int, i + 1));
                }
            }
            return None;
        }
        acc = acc * 10 + d;
        i += 1;
    }
    assert(v@.subrange(start as int, v.len() as int) == ds);
    assert forall|j: int| 0 <= j < ds.len() implies is_digit(#[trigger] ds[j]) by {
        assert(ds[j] == v@[start + j]);
    }
    Some(acc)
}

/// Parses a decimal `i64` as std's `str::parse::<i64>` does.
pub fn parse_i64(s: &str) -> (r: Option<i64>)
    ensures
        r == parse_i64_spec(s@),
{
    let v = chars_of(s);
    if v.len() > 0 && v[0] == '-' {
        assert(v@.skip(1) == s@.drop_first());
        match digits_capped(&v, 1, 0x8000_0000_0000_0000) {
            Some(n) => {
                if n == 0x8000_0000_0000_0000 {
                    Some(i64::MIN)
                } else {
                    Some(-(n as i64))
                }
            },
            None => None,
        }
    } else {
        let start: usize = if v.len() > 0 && v[0] == '+' {
            1
        } else {
            0
        };
        assert(v@.skip(start as int) == strip_plus(s@));
        match digits_capped(&v, start, 0x7fff_ffff_ffff_ffff) {
            Some(n) => Some(n as i64),
            None => None,
        }
    }
}

} // verus!
