//! The log and crash-report browser: folders, previewable files and safe
//! file names (bare names only, no traversal).
use vstd::prelude::*;
use crate::error::{AppError, AppResult};
use crate::paths::{basename, check_basename, checked, extension_lower, lower_ext, opt_views};
use crate::content::chars_lt;
use crate::forge::{lines, lines_exec};
use crate::mods::{chars_le, chars_le_exec};
use crate::text::{
    append_str, chars_of, eq, eq_str, find_char, index_of, join, join_str, lemma_index_of, lit,
    lower, oview, slice, str_eq, string_of, to_lower, views,
};

use crate::order::{
    ins, isort, lemma_chars_le_antisym, lemma_chars_le_total, lemma_chars_le_trans, lemma_isort,
    total_preorder,
};

verus! {

broadcast use vstd::string::group_string_axioms;

/// Files larger than this (512 KiB) are previewed by their end only.
pub const MAX_PREVIEW_BYTES: u64 = 524288;

/// A preview shows at most this many last lines.
pub const MAX_TAIL_LINES: usize = 400;

/// The two browsable folders of an instance.
#[derive(Clone, Copy, PartialEq, Eq, Structural, Debug)]
pub enum LogFolder {
    Logs,
    CrashReports,
}

impl LogFolder {
    /// The folder's name under the game directory.
    pub open spec fn dir_name_spec(self) -> Seq<char> {
        match self {
            LogFolder::Logs => "logs"@,
            LogFolder::CrashReports => "crash-reports"@,
        }
    }

    pub fn dir_name(&self) -> (r: String)
        ensures
            r@ == self.dir_name_spec(),
    {
        match self {
            LogFolder::Logs => lit("logs"),
            LogFolder::CrashReports => lit("crash-reports"),
        }
    }

    /// Parses `logs`, `crash-reports` or `crashReports`; refuses anything else.
    pub fn from_str(s: &str) -> (r: AppResult<LogFolder>)
        ensures
            match r {
                Ok(f) => (s@ == "logs"@ && f == LogFolder::Logs) || ((s@ == "crash-reports"@
                    || s@ == "crashReports"@) && f == LogFolder::CrashReports),
                Err(e) => s@ != "logs"@ && s@ != "crash-reports"@ && s@ != "crashReports"@
                    && e.message@ == "Folder must be logs or crash-reports"@,
            },
    {
        if str_eq(s, "logs") {
            Ok(LogFolder::Logs)
        } else if str_eq(s, "crash-reports") || str_eq(s, "crashReports") {
            Ok(LogFolder::CrashReports)
        } else {
            Err(AppError::lit("Folder must be logs or crash-reports"))
        }
    }
}

/// One file of a browsable folder.
pub struct LogFileEntry {
    pub name: String,
    pub folder: LogFolder,
    pub size: u64,
    pub modified_at: Option<String>,
    pub previewable: bool,
}

/// The text preview of one file.
pub struct LogFilePreview {
    pub name: String,
    pub folder: LogFolder,
    pub text: String,
    pub truncated: bool,
    pub size: u64,
}

/// Text files that can be previewed in-app: `.log`, `.txt`, `.json`, `.md`.
pub open spec fn text_file(name: Seq<char>) -> bool {
    match lower_ext(name) {
        Some(e) => e == "log"@ || e == "txt"@ || e == "json"@ || e == "md"@,
        None => false,
    }
}

pub fn is_previewable(name: &str) -> (b: bool)
    ensures
        b == text_file(name@),
{
    match extension_lower(name) {
        Some(e) => eq_str(&e, "log") || eq_str(&e, "txt") || eq_str(&e, "json") || eq_str(&e, "md"),
        None => false,
    }
}

/// The bare file name a user-supplied name designates, or why it is refused.
pub fn safe_filename(name: &str) -> (r: AppResult<String>)
    ensures
        match r {
            Ok(s) => basename(name@) == Ok::<Seq<char>, Seq<char>>(s@),
            Err(e) => basename(name@) == Err::<Seq<char>, Seq<char>>(e.message@),
        },
{
    match check_basename(name) {
        Ok(v) => Ok(string_of(&v)),
        Err(e) => Err(e),
    }
}

// ===========================================================================
// Listing
// ===========================================================================

/// A file found in a browsable folder: its name, size and modification
/// time (RFC 3339), when known.
pub struct LogScan {
    pub name: String,
    pub size: u64,
    pub modified_at: Option<String>,
}

/// Modification time `a` is later than `b`; a known time is later than an
/// unknown one.
pub open spec fn newer(a: Option<String>, b: Option<String>) -> bool {
    match (a, b) {
        (Some(x), Some(y)) => chars_lt(y@, x@),
        (Some(_), None) => true,
        _ => false,
    }
}

/// The listing order: newest first, then by name ignoring ASCII case.
pub open spec fn log_le(a: LogFileEntry, b: LogFileEntry) -> bool {
    newer(a.modified_at, b.modified_at) || (oview(a.modified_at) == oview(b.modified_at) && chars_le(
        lower(a.name@),
        lower(b.name@),
    ))
}

/// `x` inserted into `s` after every trailing element that sorts after it.
pub open spec fn log_insert(s: Seq<LogFileEntry>, x: LogFileEntry) -> Seq<LogFileEntry>
    decreases s.len(),
{
    if s.len() == 0 {
        seq![x]
    } else if log_le(s.last(), x) {
        s.push(x)
    } else {
        log_insert(s.drop_last(), x).push(s.last())
    }
}

/// The entries sorted by [`log_le`], equal ones keeping their order.
pub open spec fn log_sort(s: Seq<LogFileEntry>) -> Seq<LogFileEntry>
    decreases s.len(),
{
    if s.len() == 0 {
        Seq::empty()
    } else {
        log_insert(log_sort(s.drop_last()), s.last())
    }
}

fn newer_exec(a: &Option<String>, b: &Option<String>) -> (r: bool)
    ensures
        r == newer(*a, *b),
{
    match (a, b) {
        (Some(x), Some(y)) => {
            let xv = chars_of(x.as_str());
            let yv = chars_of(y.as_str());
            chars_le_exec(&yv, &xv) && !eq(&yv, &xv)
        },
        (Some(_), None) => true,
        _ => false,
    }
}

fn log_le_exec(a: &LogFileEntry, b: &LogFileEntry) -> (r: bool)
    ensures
        r == log_le(*a, *b),
{
    if newer_exec(&a.modified_at, &b.modified_at) {
        return true;
    }
    let same = match (&a.modified_at, &b.modified_at) {
        (Some(x), Some(y)) => str_eq(x.as_str(), y.as_str()),
        (None, None) => true,
        _ => false,
    };
    if !same {
        return false;
    }
    let la = to_lower(&chars_of(a.name.as_str()));
    let lb = to_lower(&chars_of(b.name.as_str()));
    chars_le_exec(&la, &lb)
}

fn insert_log(v: &mut Vec<LogFileEntry>, x: LogFileEntry)
    ensures
        final(v)@ == log_insert(old(v)@, x),
{
    let ghost s = v@;
    let mut j = v.len();
    assert(s.take(j as int) =~= s);
    assert(s.skip(j as int) =~= Seq::<LogFileEntry>::empty());
    while j > 0 && !log_le_exec(&v[j - 1], &x)
        invariant
            j <= v.len(),
            v@ == s,
            s == old(v)@,
            log_insert(s, x) == log_insert(s.take(j as int), x) + s.skip(j as int),
        decreases j,
    {
        assert(s.take(j as int).drop_last() =~= s.take(j - 1));
        assert(s.take(j as int).last() == s[j - 1]);
        assert(s.skip(j - 1) =~= seq![s[j - 1]] + s.skip(j as int));
        assert(log_insert(s.take(j as int), x) == log_insert(s.take(j - 1), x).push(s[j - 1]));
        assert(log_insert(s.take(j - 1), x).push(s[j - 1]) + s.skip(j as int) =~= log_insert(
            s.take(j - 1),
            x,
        ) + s.skip(j - 1));
        j -= 1;
    }
    if j > 0 {
        assert(s.take(j as int).last() == s[j - 1]);
        assert(log_insert(s.take(j as int), x) == s.take(j as int).push(x));
    } else {
        assert(s.take(0) =~= Seq::<LogFileEntry>::empty());
    }
    let ghost xv = x;
    v.insert(j, x);
    assert(v@ =~= s.take(j as int).push(xv) + s.skip(j as int));
}

/// Sorts a listing (see [`log_sort`]).
pub fn sort_logs(v: Vec<LogFileEntry>) -> (r: Vec<LogFileEntry>)
    ensures
        r@ == log_sort(v@),
{
    let ghost orig = v@;
    assert(orig.len() == v.len());
    let mut rest = v;
    let mut out: Vec<LogFileEntry> = Vec::new();
    let mut k: usize = 0;
    assert(orig.skip(0) =~= orig);
    while rest.len() > 0
        invariant
            k <= orig.len(),
            orig.len() <= usize::MAX,
            rest@ == orig.skip(k as int),
            out@ == log_sort(orig.take(k as int)),
        decreases rest.len(),
    {
        let x = rest.remove(0);
        assert(orig.take(k + 1).drop_last() =~= orig.take(k as int));
        assert(orig.take(k + 1).last() == x);
        insert_log(&mut out, x);
        assert(rest@ =~= orig.skip(k + 1));
        k += 1;
    }
    assert(orig.take(k as int) =~= orig);
    out
}

/// The scanned files that are listed: those with a safe name.
pub open spec fn listed_scans(s: Seq<LogScan>) -> Seq<LogScan>
    decreases s.len(),
{
    if s.len() == 0 {
        Seq::empty()
    } else if basename(s.last().name@) is Ok {
        listed_scans(s.drop_last()).push(s.last())
    } else {
        listed_scans(s.drop_last())
    }
}

/// `e` lists the scanned file `s` of `folder`.
pub open spec fn entry_matches(e: LogFileEntry, folder: LogFolder, s: LogScan) -> bool {
    &&& e.name == s.name
    &&& e.folder == folder
    &&& e.size == s.size
    &&& e.modified_at == s.modified_at
    &&& e.previewable == text_file(s.name@)
}

/// The files of a browsable folder: the scanned files whose names are safe,
/// marked previewable by extension, newest first, then by name.
pub fn list_files(folder: LogFolder, scans: Vec<LogScan>) -> (r: Vec<LogFileEntry>)
    ensures
        exists|items: Seq<LogFileEntry>|
            #[trigger] log_sort(items) == r@ && items.len() == listed_scans(scans@).len() && forall|k: int|
                0 <= k < items.len() ==> entry_matches(#[trigger] items[k], folder, listed_scans(scans@)[k]),
{
    let ghost all = scans@;
    assert(all.len() == scans.len());
    let mut rest = scans;
    let mut items: Vec<LogFileEntry> = Vec::new();
    let mut i: usize = 0;
    assert(all.skip(0) =~= all);
    while rest.len() > 0
        invariant
            i <= all.len(),
            all.len() <= usize::MAX,
            rest@ == all.skip(i as int),
            items@.len() == listed_scans(all.take(i as int)).len(),
            forall|k: int|
                0 <= k < items@.len() ==> entry_matches(#[trigger] items@[k], folder, listed_scans(all.take(i as int))[k]),
        decreases rest.len(),
    {
        let s = rest.remove(0);
        assert(all.take(i + 1).drop_last() =~= all.take(i as int));
        assert(all.take(i + 1).last() == s);
        assert(rest@ =~= all.skip(i + 1));
        let ok = safe_filename(s.name.as_str()).is_ok();
        if ok {
            let previewable = is_previewable(s.name.as_str());
            items.push(LogFileEntry { name: s.name, folder, size: s.size, modified_at: s.modified_at, previewable });
        }
        i += 1;
    }
    assert(all.take(i as int) =~= all);
    let ghost unsorted = items@;
    let r = sort_logs(items);
    assert(log_sort(unsorted) == r@);
    r
}

// ===========================================================================
// Previews
// ===========================================================================

/// The text a capped read previews: after the first line break when only
/// the end of the file was read (that line may be cut), else all of it.
pub open spec fn preview_body(raw: Seq<char>, size_trunc: bool) -> Seq<char> {
    if size_trunc {
        match index_of(raw, '\n') {
            Some(i) => raw.skip(i + 1),
            None => raw,
        }
    } else {
        raw
    }
}

/// The preview of a file of `size` bytes whose (last 512 KiB of) text is
/// `raw`: at most the last 400 lines, behind a notice when anything was
/// left out.
pub open spec fn preview_of(size: u64, raw: Seq<char>) -> (Seq<char>, bool) {
    if size == 0 {
        (Seq::empty(), false)
    } else {
        let size_trunc = size > MAX_PREVIEW_BYTES;
        let ls = lines(preview_body(raw, size_trunc));
        let line_trunc = ls.len() > MAX_TAIL_LINES;
        if size_trunc || line_trunc {
            let start = if line_trunc {
                ls.len() - MAX_TAIL_LINES
            } else {
                0
            };
            ("… [truncated — showing end of file]\n"@ + join(ls.skip(start), "\n"@), true)
        } else {
            (join(ls, "\n"@), false)
        }
    }
}

/// The preview text of a file (see [`preview_of`]).
pub fn read_text_capped(size: u64, raw: &str) -> (r: (String, bool))
    ensures
        (r.0@, r.1) == preview_of(size, raw@),
{
    if size == 0 {
        return (String::new(), false);
    }
    let size_trunc = size > MAX_PREVIEW_BYTES;
    let rv = chars_of(raw);
    let body: Vec<char> = if size_trunc {
        match find_char(&rv, '\n') {
            Some(i) => {
                proof {
                    lemma_index_of(rv@, '\n');
                }
                assert(i < rv.len());
                slice(&rv, i + 1, rv.len())
            },
            None => {
                proof {
                    lemma_index_of(rv@, '\n');
                }
                rv
            },
        }
    } else {
        rv
    };
    assert(body@ == preview_body(raw@, size_trunc));
    let ls = lines_exec(string_of(&body).as_str());
    let line_trunc = ls.len() > MAX_TAIL_LINES;
    if size_trunc || line_trunc {
        let start: usize = if line_trunc {
            ls.len() - MAX_TAIL_LINES
        } else {
            0
        };
        let mut tail: Vec<Vec<char>> = Vec::new();
        let mut k = start;
        while k < ls.len()
            invariant
                start <= k <= ls.len(),
                views(tail@) == views(ls@).subrange(start as int, k as int),
            decreases ls.len() - k,
        {
            let c = crate::text::copy(&ls[k]);
            let ghost before = views(tail@);
            tail.push(c);
            assert(views(tail@) =~= before.push(views(ls@)[k as int]));
            assert(views(tail@) =~= views(ls@).subrange(start as int, k + 1));
            k += 1;
        }
        assert(views(ls@).subrange(start as int, ls.len() as int) =~= views(ls@).skip(start as int));
        let mut out = chars_of("… [truncated — showing end of file]\n");
        crate::text::append(&mut out, &join_str(&tail, "\n"));
        (string_of(&out), true)
    } else {
        (string_of(&join_str(&ls, "\n")), false)
    }
}

/// The preview of file `name` of `folder` (already found inside it), of
/// `size` bytes with text `raw` (see [`read_text_capped`]); only text files
/// can be previewed.
pub fn read_preview(folder: LogFolder, name: &str, size: u64, raw: &str) -> (r: AppResult<LogFilePreview>)
    ensures
        !text_file(name@) ==> (r matches Err(e) && e.message@
            == "Only .log, .txt, .json, and .md can be previewed here. Reveal the folder for .gz archives."@),
        text_file(name@) ==> match basename(name@) {
            Err(m) => r matches Err(e) && e.message@ == m,
            Ok(n) => r matches Ok(p) && p.name@ == n && p.folder == folder && (p.text@, p.truncated)
                == preview_of(size, raw@) && p.size == size,
        },
{
    if !is_previewable(name) {
        return Err(AppError::lit(
            "Only .log, .txt, .json, and .md can be previewed here. Reveal the folder for .gz archives.",
        ));
    }
    let n = match safe_filename(name) {
        Ok(n) => n,
        Err(e) => {
            return Err(e);
        },
    };
    let (text, truncated) = read_text_capped(size, raw);
    Ok(LogFilePreview { name: n, folder, text, truncated, size })
}


// ===========================================================================
// Laws
// ===========================================================================

/// The listing order as a relation.
pub open spec fn log_order() -> spec_fn(LogFileEntry, LogFileEntry) -> bool {
    |a: LogFileEntry, b: LogFileEntry| log_le(a, b)
}

proof fn lemma_log_insert_is(s: Seq<LogFileEntry>, x: LogFileEntry)
    ensures
        log_insert(s, x) == ins(s, x, log_order()),
    decreases s.len(),
{
    if s.len() > 0 {
        lemma_log_insert_is(s.drop_last(), x);
    }
}

proof fn lemma_log_sort_is(s: Seq<LogFileEntry>)
    ensures
        log_sort(s) == isort(s, log_order()),
    decreases s.len(),
{
    if s.len() > 0 {
        lemma_log_sort_is(s.drop_last());
        lemma_log_insert_is(log_sort(s.drop_last()), s.last());
    }
}

proof fn lemma_log_order_total()
    ensures
        total_preorder(log_order()),
{
    let le = log_order();
    assert forall|a: LogFileEntry, b: LogFileEntry| #[trigger] le(a, b) || le(b, a) by {
        lemma_chars_le_total(lower(a.name@), lower(b.name@));
        match (a.modified_at, b.modified_at) {
            (Some(x), Some(y)) => {
                lemma_chars_le_total(x@, y@);
            },
            _ => {},
        }
    }
    assert forall|a: LogFileEntry, b: LogFileEntry, c: LogFileEntry|
        #[trigger] le(a, b) && #[trigger] le(b, c) implies le(a, c) by {
        let (p, q, r) = (lower(a.name@), lower(b.name@), lower(c.name@));
        if chars_le(p, q) && chars_le(q, r) {
            lemma_chars_le_trans(p, q, r);
        }
        match (a.modified_at, b.modified_at, c.modified_at) {
            (Some(x), Some(y), Some(z)) => {
                if chars_le(z@, y@) && chars_le(y@, x@) {
                    lemma_chars_le_trans(z@, y@, x@);
                }
                if chars_le(x@, y@) && chars_le(y@, x@) {
                    lemma_chars_le_antisym(x@, y@);
                }
                if chars_le(y@, z@) && chars_le(z@, y@) {
                    lemma_chars_le_antisym(y@, z@);
                }
                if chars_le(z@, y@) && chars_le(y@, x@) && x@ == z@ {
                    lemma_chars_le_antisym(x@, y@);
                }
            },
            _ => {},
        }
    }
}

/// A file listing comes out newest first, then by name ignoring ASCII
/// case, and holds exactly the entries it was given.
pub proof fn law_log_listing_sorted(s: Seq<LogFileEntry>)
    ensures
        forall|i: int, j: int|
            0 <= i < j < log_sort(s).len() ==> log_le(#[trigger] log_sort(s)[i], #[trigger] log_sort(s)[j]),
        log_sort(s).to_multiset() == s.to_multiset(),
{
    lemma_log_order_total();
    lemma_log_sort_is(s);
    lemma_isort(s, log_order());
    assert forall|i: int, j: int| 0 <= i < j < log_sort(s).len() implies log_le(
        #[trigger] log_sort(s)[i],
        #[trigger] log_sort(s)[j],
    ) by {
        assert(log_order()(log_sort(s)[i], log_sort(s)[j]));
    }
}


proof fn lemma_listed_remove(scans: Seq<LogScan>, j: int)
    requires
        0 <= j < scans.len(),
        basename(scans[j].name@) is Ok,
    ensures
        listed_scans(scans.take(j)).len() < listed_scans(scans).len(),
        listed_scans(scans)[listed_scans(scans.take(j)).len() as int] == scans[j],
        listed_scans(scans.remove(j)) == listed_scans(scans).remove(listed_scans(scans.take(j)).len() as int),
    decreases scans.len(),
{
    let d = scans.drop_last();
    if j == scans.len() - 1 {
        assert(scans.remove(j) =~= d);
        assert(scans.take(j) =~= d);
        assert(listed_scans(scans).remove(listed_scans(d).len() as int) =~= listed_scans(d));
    } else {
        lemma_listed_remove(d, j);
        assert(d.take(j) =~= scans.take(j));
        let r = scans.remove(j);
        assert(r.drop_last() =~= d.remove(j));
        assert(r.last() == scans.last());
        let idx = listed_scans(scans.take(j)).len() as int;
        if basename(scans.last().name@) is Ok {
            assert(listed_scans(d).push(scans.last()).remove(idx) =~= listed_scans(d).remove(idx).push(
                scans.last(),
            ));
        }
    }
}

proof fn lemma_listed_in(scans: Seq<LogScan>, k: int)
    requires
        0 <= k < listed_scans(scans).len(),
    ensures
        exists|m: int| 0 <= m < scans.len() && scans[m] == listed_scans(scans)[k],
    decreases scans.len(),
{
    let d = scans.drop_last();
    if k < listed_scans(d).len() {
        lemma_listed_in(d, k);
        let m = choose|m: int| 0 <= m < d.len() && d[m] == listed_scans(d)[k];
        assert(scans[m] == d[m]);
    } else {
        assert(scans[scans.len() - 1] == scans.last());
    }
}

/// Deleting a listed file takes exactly its entry off the folder's
/// listing: every other file is listed as before, in the same order, and
/// none under the deleted name. File names are distinct in a folder, as on
/// disk.
pub proof fn law_delete_unlists(
    folder: LogFolder,
    scans: Seq<LogScan>,
    j: int,
    before: Seq<LogFileEntry>,
    after: Seq<LogFileEntry>,
)
    requires
        0 <= j < scans.len(),
        basename(scans[j].name@) is Ok,
        forall|k: int| 0 <= k < scans.len() && k != j ==> (#[trigger] scans[k]).name@ != scans[j].name@,
        before.len() == listed_scans(scans).len(),
        forall|k: int| 0 <= k < before.len() ==> entry_matches(#[trigger] before[k], folder, listed_scans(scans)[k]),
        after.len() == listed_scans(scans.remove(j)).len(),
        forall|k: int|
            0 <= k < after.len() ==> entry_matches(#[trigger] after[k], folder, listed_scans(scans.remove(j))[k]),
    ensures
        after.len() + 1 == before.len(),
        before[listed_scans(scans.take(j)).len() as int].name == scans[j].name,
        forall|k: int|
            0 <= k < after.len() ==> #[trigger] after[k] == before[if k < listed_scans(scans.take(j)).len() {
                k
            } else {
                k + 1
            }],
        forall|k: int| 0 <= k < after.len() ==> (#[trigger] after[k]).name@ != scans[j].name@,
{
    lemma_listed_remove(scans, j);
    let idx = listed_scans(scans.take(j)).len() as int;
    let lb = listed_scans(scans);
    let la = listed_scans(scans.remove(j));
    assert(entry_matches(before[idx], folder, lb[idx]));
    assert forall|k: int| 0 <= k < after.len() implies #[trigger] after[k] == before[if k < idx {
        k
    } else {
        k + 1
    }] by {
        let k2 = if k < idx {
            k
        } else {
            k + 1
        };
        assert(la[k] == lb[k2]);
        assert(entry_matches(after[k], folder, la[k]));
        assert(entry_matches(before[k2], folder, lb[k2]));
    }
    assert forall|k: int| 0 <= k < after.len() implies (#[trigger] after[k]).name@ != scans[j].name@ by {
        assert(entry_matches(after[k], folder, la[k]));
        lemma_listed_in(scans.remove(j), k);
        let m = choose|m: int| 0 <= m < scans.remove(j).len() && scans.remove(j)[m] == la[k];
        let m2 = if m < j {
            m
        } else {
            m + 1
        };
        assert(scans.remove(j)[m] == scans[m2]);
    }
}

} // verus!
