//! Launching: the table of running instances, and the pieces of a Java
//! command line (version ids, argument splitting and token substitution).
use vstd::prelude::*;
use crate::error::{AppError, AppResult};
use crate::instances::Instance;
use crate::paths::{join, path_join, path_join_str};
use crate::maven::{maven_jar_rel, maven_path};
use crate::text::{append, append_str, chars_of, is_ws, replace, replace_all, str_eq, string_of};
use crate::text::char_is_ws;
use crate::json::{
    Json, JsonV, array_of, as_bool, as_object, as_str, at, get, get_opt, json_views, pointer, same,
    str_of,
};
use crate::auth::SessionDescriptor;
use crate::text::{lit, signed_decimal, signed_decimal_of};

verus! {

// ===========================================================================
// Running instances
// ===========================================================================

/// The running game processes, by instance id.
pub struct LaunchTable {
    entries: Vec<(String, u32)>,
}

pub open spec fn key_at(s: Seq<(String, u32)>, k: Seq<char>) -> int {
    choose|i: int| 0 <= i < s.len() && (#[trigger] s[i]).0@ == k
}

/// The map an association list of instance ids denotes.
pub open spec fn table_map(s: Seq<(String, u32)>) -> Map<Seq<char>, u32> {
    Map::new(
        |k: Seq<char>| exists|i: int| 0 <= i < s.len() && (#[trigger] s[i]).0@ == k,
        |k: Seq<char>| s[key_at(s, k)].1,
    )
}

pub open spec fn unique_keys(s: Seq<(String, u32)>) -> bool {
    forall|i: int, j: int| 0 <= i < j < s.len() ==> (#[trigger] s[i]).0@ != (#[trigger] s[j]).0@
}

impl View for LaunchTable {
    type V = Map<Seq<char>, u32>;

    closed spec fn view(&self) -> Map<Seq<char>, u32> {
        table_map(self.entries@)
    }
}

proof fn lemma_key_at(s: Seq<(String, u32)>, i: int)
    requires
        unique_keys(s),
        0 <= i < s.len(),
    ensures
        key_at(s, s[i].0@) == i,
        table_map(s).contains_key(s[i].0@),
        table_map(s)[s[i].0@] == s[i].1,
{
    let k = s[i].0@;
    assert(s[i].0@ == k);
    let j = key_at(s, k);
    if j != i {
        if j < i {
            assert(s[j].0@ != s[i].0@);
        } else {
            assert(s[i].0@ != s[j].0@);
        }
    }
}

impl LaunchTable {
    #[verifier::type_invariant]
    spec fn keys_unique(&self) -> bool {
        unique_keys(self.entries@)
    }

    /// An empty table.
    pub fn new() -> (t: LaunchTable)
        ensures
            t@ == Map::<Seq<char>, u32>::empty(),
    {
        let t = LaunchTable { entries: Vec::new() };
        assert(t@ =~= Map::<Seq<char>, u32>::empty());
        t
    }

    fn position(&self, instance_id: &str) -> (r: Option<usize>)
        ensures
            match r {
                Some(i) => i < self.entries@.len() && self.entries@[i as int].0@ == instance_id@,
                None => !self@.contains_key(instance_id@),
            },
    {
        let mut i: usize = 0;
        while i < self.entries.len()
            invariant
                i <= self.entries.len(),
                forall|j: int| 0 <= j < i ==> (#[trigger] self.entries@[j]).0@ != instance_id@,
            decreases self.entries.len() - i,
        {
            if str_eq(self.entries[i].0.as_str(), instance_id) {
                return Some(i);
            }
            i += 1;
        }
        None
    }

    /// Records that `instance_id` runs as process `pid`.
    pub fn insert(&mut self, instance_id: &str, pid: u32)
        ensures
            final(self)@ == old(self)@.insert(instance_id@, pid),
    {
        proof {
            use_type_invariant(&*self);
        }
        let ghost s = self.entries@;
        let pos = self.position(instance_id);
        let mut entries: Vec<(String, u32)> = Vec::new();
        std::mem::swap(&mut entries, &mut self.entries);
        match pos {
            Some(i) => {
                entries.set(i, (instance_id.to_string(), pid));
                proof {
                    let s2 = entries@;
                    assert forall|a: int, b: int| 0 <= a < b < s2.len() implies (
                    #[trigger] s2[a]).0@ != (#[trigger] s2[b]).0@ by {
                        assert(s2[a].0@ == s[a].0@);
                        assert(s2[b].0@ == s[b].0@);
                    }
                    lemma_key_at(s2, i as int);
                    assert forall|k: Seq<char>| #![auto] table_map(s2).contains_key(k) == table_map(s).insert(instance_id@, pid).contains_key(k) by {
                        if exists|a: int| 0 <= a < s2.len() && (#[trigger] s2[a]).0@ == k {
                            let a = choose|a: int| 0 <= a < s2.len() && (#[trigger] s2[a]).0@ == k;
                            assert(s[a].0@ == k);
                        }
                        if exists|a: int| 0 <= a < s.len() && (#[trigger] s[a]).0@ == k {
                            let a = choose|a: int| 0 <= a < s.len() && (#[trigger] s[a]).0@ == k;
                            assert(s2[a].0@ == k);
                        }
                    }
                    assert forall|k: Seq<char>| #![auto] table_map(s2).contains_key(k) implies table_map(s2)[k] == table_map(s).insert(instance_id@, pid)[k] by {
                        let a = choose|a: int| 0 <= a < s2.len() && (#[trigger] s2[a]).0@ == k;
                        lemma_key_at(s2, a);
                        if a != i {
                            assert(s[a] == s2[a]);
                            lemma_key_at(s, a);
                        }
                    }
                    assert(table_map(s2) =~= table_map(s).insert(instance_id@, pid));
                }
            },
            None => {
                entries.push((instance_id.to_string(), pid));
                proof {
                    let s2 = entries@;
                    assert forall|a: int, b: int| 0 <= a < b < s2.len() implies (
                    #[trigger] s2[a]).0@ != (#[trigger] s2[b]).0@ by {
                        if b == s.len() {
                            assert(s2[a] == s[a]);
                            assert(table_map(s).contains_key(s[a].0@));
                        } else {
                            assert(s2[a] == s[a]);
                            assert(s2[b] == s[b]);
                        }
                    }
                    lemma_key_at(s2, s.len() as int);
                    assert forall|k: Seq<char>| #![auto] table_map(s2).contains_key(k) == table_map(s).insert(instance_id@, pid).contains_key(k) by {
                        if exists|a: int| 0 <= a < s2.len() && (#[trigger] s2[a]).0@ == k {
                            let a = choose|a: int| 0 <= a < s2.len() && (#[trigger] s2[a]).0@ == k;
                            if a < s.len() {
                                assert(s[a].0@ == k);
                            }
                        }
                        if exists|a: int| 0 <= a < s.len() && (#[trigger] s[a]).0@ == k {
                            let a = choose|a: int| 0 <= a < s.len() && (#[trigger] s[a]).0@ == k;
                            assert(s2[a].0@ == k);
                        }
                    }
                    assert forall|k: Seq<char>| #![auto] table_map(s2).contains_key(k) implies table_map(s2)[k] == table_map(s).insert(instance_id@, pid)[k] by {
                        let a = choose|a: int| 0 <= a < s2.len() && (#[trigger] s2[a]).0@ == k;
                        lemma_key_at(s2, a);
                        if a < s.len() {
                            assert(s[a] == s2[a]);
                            lemma_key_at(s, a);
                        }
                    }
                    assert(table_map(s2) =~= table_map(s).insert(instance_id@, pid));
                }
            },
        }
        self.entries = entries;
    }

    /// Forgets `instance_id`, giving back its process id if it was recorded.
    pub fn remove(&mut self, instance_id: &str) -> (r: Option<u32>)
        ensures
            r == (if old(self)@.contains_key(instance_id@) {
                Some(old(self)@[instance_id@])
            } else {
                None
            }),
            final(self)@ == old(self)@.remove(instance_id@),
    {
        proof {
            use_type_invariant(&*self);
        }
        let ghost s = self.entries@;
        let pos = self.position(instance_id);
        let mut entries: Vec<(String, u32)> = Vec::new();
        std::mem::swap(&mut entries, &mut self.entries);
        match pos {
            Some(i) => {
                let e = entries.remove(i);
                proof {
                    let s2 = entries@;
                    assert(s2 == s.remove(i as int));
                    lemma_key_at(s, i as int);
                    assert forall|a: int, b: int| 0 <= a < b < s2.len() implies (
                    #[trigger] s2[a]).0@ != (#[trigger] s2[b]).0@ by {
                        let aa = if a < i { a } else { a + 1 };
                        let bb = if b < i { b } else { b + 1 };
                        assert(s2[a] == s[aa]);
                        assert(s2[b] == s[bb]);
                    }
                    assert forall|k: Seq<char>| #![auto] table_map(s2).contains_key(k) == table_map(s).remove(instance_id@).contains_key(k) by {
                        if exists|a: int| 0 <= a < s2.len() && (#[trigger] s2[a]).0@ == k {
                            let a = choose|a: int| 0 <= a < s2.len() && (#[trigger] s2[a]).0@ == k;
                            let aa = if a < i { a } else { a + 1 };
                            assert(s[aa].0@ == k);
                            assert(aa != i);
                        }
                        if k != instance_id@ && exists|a: int| 0 <= a < s.len() && (#[trigger] s[a]).0@ == k {
                            let a = choose|a: int| 0 <= a < s.len() && (#[trigger] s[a]).0@ == k;
                            assert(a != i);
                            let a2 = if a < i { a } else { a - 1 };
                            assert(s2[a2].0@ == k);
                        }
                    }
                    assert forall|k: Seq<char>| #![auto] table_map(s2).contains_key(k) implies table_map(s2)[k] == table_map(s).remove(instance_id@)[k] by {
                        let a = choose|a: int| 0 <= a < s2.len() && (#[trigger] s2[a]).0@ == k;
                        lemma_key_at(s2, a);
                        let aa = if a < i { a } else { a + 1 };
                        assert(s[aa] == s2[a]);
                        lemma_key_at(s, aa);
                    }
                    assert(table_map(s2) =~= table_map(s).remove(instance_id@));
                }
                self.entries = entries;
                Some(e.1)
            },
            None => {
                assert(table_map(s) =~= table_map(s).remove(instance_id@));
                self.entries = entries;
                None
            },
        }
    }

    /// The process id recorded for `instance_id`.
    pub fn get(&self, instance_id: &str) -> (r: Option<u32>)
        ensures
            r == (if self@.contains_key(instance_id@) {
                Some(self@[instance_id@])
            } else {
                None
            }),
    {
        proof {
            use_type_invariant(self);
        }
        match self.position(instance_id) {
            Some(i) => {
                proof {
                    lemma_key_at(self.entries@, i as int);
                }
                Some(self.entries[i].1)
            },
            None => None,
        }
    }

    /// The ids of the running instances, each once.
    pub fn running_ids(&self) -> (r: Vec<String>)
        ensures
            r@.map_values(|s: String| s@).to_set() == self@.dom(),
            r@.map_values(|s: String| s@).no_duplicates(),
    {
        proof {
            use_type_invariant(self);
        }
        let mut r: Vec<String> = Vec::new();
        let mut i: usize = 0;
        while i < self.entries.len()
            invariant
                i <= self.entries.len(),
                unique_keys(self.entries@),
                r@.len() == i,
                forall|j: int| 0 <= j < i ==> (#[trigger] r@[j])@ == self.entries@[j].0@,
            decreases self.entries.len() - i,
        {
            r.push(self.entries[i].0.clone());
            i += 1;
        }
        proof {
            let ids = r@.map_values(|s: String| s@);
            let s = self.entries@;
            assert forall|k: Seq<char>| ids.to_set().contains(k) == self@.dom().contains(k) by {
                if ids.contains(k) {
                    let j = choose|j: int| 0 <= j < ids.len() && ids[j] == k;
                    assert(s[j].0@ == k);
                }
                if self@.dom().contains(k) {
                    let j = choose|j: int| 0 <= j < s.len() && (#[trigger] s[j]).0@ == k;
                    assert(ids[j] == k);
                }
            }
            assert(ids.to_set() =~= self@.dom());
            assert forall|a: int, b: int| 0 <= a < ids.len() && 0 <= b < ids.len() && a != b implies ids[a] != ids[b] by {
                if a < b {
                    assert(s[a].0@ != s[b].0@);
                } else {
                    assert(s[b].0@ != s[a].0@);
                }
            }
        }
        r
    }
}

impl Default for LaunchTable {
    fn default() -> (t: Self)
        ensures
            t@ == Map::<Seq<char>, u32>::empty(),
    {
        LaunchTable::new()
    }
}

/// A recorded process is found again under its instance id.
pub proof fn law_get_after_insert(m: Map<Seq<char>, u32>, id: Seq<char>, pid: u32, other: Seq<char>)
    ensures
        m.insert(id, pid).contains_key(id),
        m.insert(id, pid)[id] == pid,
        other != id ==> m.insert(id, pid).contains_key(other) == m.contains_key(other),
        other != id && m.contains_key(other) ==> m.insert(id, pid)[other] == m[other],
{
}

/// A removed instance is no longer running; the others are untouched.
pub proof fn law_get_after_remove(m: Map<Seq<char>, u32>, id: Seq<char>, other: Seq<char>)
    ensures
        !m.remove(id).contains_key(id),
        other != id ==> m.remove(id).contains_key(other) == m.contains_key(other),
        other != id && m.contains_key(other) ==> m.remove(id)[other] == m[other],
{
}

/// The instance stop acts on: the process recorded for `instance_id`, which
/// the caller terminates before calling [`LaunchTable::remove`]; an instance
/// that is not running is refused.
pub fn stop(launches: &LaunchTable, instance_id: &str) -> (r: AppResult<u32>)
    ensures
        r is Ok <==> launches@.contains_key(instance_id@),
        r matches Ok(pid) ==> pid == launches@[instance_id@],
        r matches Err(e) ==> e.message@ == "That instance is not running"@,
{
    match launches.get(instance_id) {
        Some(pid) => Ok(pid),
        None => Err(AppError::lit("That instance is not running")),
    }
}

/// The ids of the running instances.
pub fn list_running(launches: &LaunchTable) -> (r: Vec<String>)
    ensures
        r@.map_values(|s: String| s@).to_set() == launches@.dom(),
        r@.map_values(|s: String| s@).no_duplicates(),
{
    launches.running_ids()
}

/// `{game_dir}/crash-reports`.
pub fn crash_reports_dir(instance: &Instance) -> (r: String)
    ensures
        r@ == join(instance.game_dir@, "crash-reports"@),
{
    string_of(&path_join_str(&chars_of(instance.game_dir.as_str()), "crash-reports"))
}

/// The version id an instance launches: the game version for vanilla,
/// `{loader}-{game version}` otherwise.
pub open spec fn version_id_of(loader: Seq<char>, game_version: Seq<char>) -> Seq<char> {
    if loader == "vanilla"@ {
        game_version
    } else {
        loader + "-"@ + game_version
    }
}

pub fn effective_version_id(instance: &Instance) -> (r: String)
    ensures
        r@ == version_id_of(instance.loader@, instance.game_version@),
{
    if str_eq(instance.loader.as_str(), "vanilla") {
        instance.game_version.clone()
    } else {
        let mut v = chars_of(instance.loader.as_str());
        append_str(&mut v, "-");
        append(&mut v, &chars_of(instance.game_version.as_str()));
        string_of(&v)
    }
}

// ===========================================================================
// Splitting and substituting arguments
// ===========================================================================

/// The words found so far, the word being read, and the open quote, if any.
pub type ScanState = (Seq<Seq<char>>, Seq<char>, Option<char>);

/// One character of a user-written argument string: quotes (`"` or `'`)
/// group text, whitespace outside quotes ends a word.
pub open spec fn arg_step(st: ScanState, c: char) -> ScanState {
    let (out, buf, q) = st;
    match q {
        Some(open) => if c == open {
            (out, buf, None)
        } else {
            (out, buf.push(c), q)
        },
        None => if c == '"' || c == '\'' {
            (out, buf, Some(c))
        } else if is_ws(c) {
            if buf.len() > 0 {
                (out.push(buf), Seq::empty(), None)
            } else {
                st
            }
        } else {
            (out, buf.push(c), None)
        },
    }
}

/// The scan of `s`, character by character.
pub open spec fn arg_scan(s: Seq<char>) -> ScanState
    decreases s.len(),
{
    if s.len() == 0 {
        (Seq::empty(), Seq::empty(), None)
    } else {
        arg_step(arg_scan(s.drop_last()), s.last())
    }
}

/// The arguments of a user-written string: words separated by whitespace,
/// where quotes keep whitespace inside a word and are themselves dropped.
pub open spec fn split_args_spec(s: Seq<char>) -> Seq<Seq<char>> {
    let (out, buf, _q) = arg_scan(s);
    if buf.len() > 0 {
        out.push(buf)
    } else {
        out
    }
}

/// One character of `str::split_whitespace`.
pub open spec fn word_step(st: (Seq<Seq<char>>, Seq<char>), c: char) -> (Seq<Seq<char>>, Seq<char>) {
    let (out, buf) = st;
    if is_ws(c) {
        if buf.len() > 0 {
            (out.push(buf), Seq::empty())
        } else {
            st
        }
    } else {
        (out, buf.push(c))
    }
}

pub open spec fn word_scan(s: Seq<char>) -> (Seq<Seq<char>>, Seq<char>)
    decreases s.len(),
{
    if s.len() == 0 {
        (Seq::empty(), Seq::empty())
    } else {
        word_step(word_scan(s.drop_last()), s.last())
    }
}

/// The maximal runs of non-whitespace characters of `s`
/// (std's `str::split_whitespace`).
pub open spec fn words(s: Seq<char>) -> Seq<Seq<char>> {
    let (out, buf) = word_scan(s);
    if buf.len() > 0 {
        out.push(buf)
    } else {
        out
    }
}

/// The views of a list of strings.
pub open spec fn sviews(v: Seq<String>) -> Seq<Seq<char>> {
    v.map_values(|s: String| s@)
}

/// Splits a user-written JVM argument string (see [`split_args_spec`]).
pub fn split_args(raw: &str) -> (r: Vec<String>)
    ensures
        sviews(r@) == split_args_spec(raw@),
{
    let cs = chars_of(raw);
    let mut out: Vec<String> = Vec::new();
    let mut buf: Vec<char> = Vec::new();
    let mut quote: Option<char> = None;
    let mut i: usize = 0;
    while i < cs.len()
        invariant
            i <= cs.len(),
            cs@ == raw@,
            arg_scan(cs@.take(i as int)) == (sviews(out@), buf@, quote),
        decreases cs.len() - i,
    {
        let c = cs[i];
        assert(cs@.take(i + 1).drop_last() =~= cs@.take(i as int));
        match quote {
            Some(q) => {
                if c == q {
                    quote = None;
                } else {
                    buf.push(c);
                }
            },
            None => {
                if c == '"' || c == '\'' {
                    quote = Some(c);
                } else if char_is_ws(c) {
                    if buf.len() > 0 {
                        let word = string_of(&buf);
                        out.push(word);
                        buf = Vec::new();
                        assert(sviews(out@) =~= arg_scan(cs@.take(i as int)).0.push(word@));
                    }
                } else {
                    buf.push(c);
                }
            },
        }
        i += 1;
    }
    assert(cs@.take(cs.len() as int) =~= cs@);
    if buf.len() > 0 {
        let word = string_of(&buf);
        out.push(word);
        assert(sviews(out@) =~= arg_scan(cs@).0.push(word@));
    }
    out
}

/// `raw.split_whitespace()`, each word copied out.
pub fn split_words(raw: &str) -> (r: Vec<String>)
    ensures
        sviews(r@) == words(raw@),
{
    let cs = chars_of(raw);
    let mut out: Vec<String> = Vec::new();
    let mut buf: Vec<char> = Vec::new();
    let mut i: usize = 0;
    while i < cs.len()
        invariant
            i <= cs.len(),
            cs@ == raw@,
            word_scan(cs@.take(i as int)) == (sviews(out@), buf@),
        decreases cs.len() - i,
    {
        let c = cs[i];
        assert(cs@.take(i + 1).drop_last() =~= cs@.take(i as int));
        if char_is_ws(c) {
            if buf.len() > 0 {
                let word = string_of(&buf);
                out.push(word);
                buf = Vec::new();
                assert(sviews(out@) =~= word_scan(cs@.take(i as int)).0.push(word@));
            }
        } else {
            buf.push(c);
        }
        i += 1;
    }
    assert(cs@.take(cs.len() as int) =~= cs@);
    if buf.len() > 0 {
        let word = string_of(&buf);
        out.push(word);
        assert(sviews(out@) =~= word_scan(cs@).0.push(word@));
    }
    out
}

/// The views of a list of (token, value) pairs.
pub open spec fn pair_views(v: Seq<(String, String)>) -> Seq<(Seq<char>, Seq<char>)> {
    v.map_values(|p: (String, String)| (p.0@, p.1@))
}

/// `s` with each pair's token replaced by its value, the pairs applied one
/// after another in list order.
pub open spec fn substitute(s: Seq<char>, pairs: Seq<(Seq<char>, Seq<char>)>) -> Seq<char>
    decreases pairs.len(),
{
    if pairs.len() == 0 {
        s
    } else {
        replace(substitute(s, pairs.drop_last()), pairs.last().0, pairs.last().1)
    }
}

/// Replaces every `${token}` of `input` by its value (see [`substitute`]).
pub fn replace_tokens(input: &str, replacements: &Vec<(String, String)>) -> (r: String)
    ensures
        r@ == substitute(input@, pair_views(replacements@)),
{
    let mut out = chars_of(input);
    let mut i: usize = 0;
    while i < replacements.len()
        invariant
            i <= replacements.len(),
            out@ == substitute(input@, pair_views(replacements@).take(i as int)),
        decreases replacements.len() - i,
    {
        assert(pair_views(replacements@).take(i + 1).drop_last() =~= pair_views(
            replacements@,
        ).take(i as int));
        let from = chars_of(replacements[i].0.as_str());
        let to = chars_of(replacements[i].1.as_str());
        out = replace_all(&out, &from, &to);
        i += 1;
    }
    assert(pair_views(replacements@).take(replacements.len() as int) =~= pair_views(
        replacements@,
    ));
    string_of(&out)
}

/// The words of a legacy `minecraftArguments` string, each with its tokens
/// substituted.
pub open spec fn legacy_args(raw: Seq<char>, pairs: Seq<(Seq<char>, Seq<char>)>) -> Seq<Seq<char>> {
    words(raw).map_values(|w: Seq<char>| substitute(w, pairs))
}

/// Splits a legacy argument string on whitespace and substitutes tokens.
pub fn interpolate_legacy(raw: &str, replacements: &Vec<(String, String)>) -> (r: Vec<String>)
    ensures
        sviews(r@) == legacy_args(raw@, pair_views(replacements@)),
{
    let ws = split_words(raw);
    let mut out: Vec<String> = Vec::new();
    let mut i: usize = 0;
    while i < ws.len()
        invariant
            i <= ws.len(),
            sviews(ws@) == words(raw@),
            sviews(out@) == legacy_args(raw@, pair_views(replacements@)).take(i as int),
        decreases ws.len() - i,
    {
        let t = replace_tokens(ws[i].as_str(), replacements);
        assert(words(raw@)[i as int] == ws@[i as int]@);
        assert(words(raw@).len() == ws.len());
        let ghost la = legacy_args(raw@, pair_views(replacements@));
        assert(la[i as int] == t@);
        let ghost before = sviews(out@);
        out.push(t);
        assert(sviews(out@) =~= before.push(t@));
        assert(sviews(out@) =~= legacy_args(raw@, pair_views(replacements@)).take(i + 1));
        i += 1;
    }
    assert(legacy_args(raw@, pair_views(replacements@)).take(ws.len() as int) =~= legacy_args(
        raw@,
        pair_views(replacements@),
    ));
    out
}

// ===========================================================================
// Rules and argument lists of version JSON
// ===========================================================================

/// The view of an optional JSON value.
pub open spec fn jopt(o: Option<&Json>) -> Option<JsonV> {
    match o {
        Some(j) => Some(j@),
        None => None,
    }
}

/// Some feature flag of a rule is set (`features.values().any(|v| v == true)`).
pub open spec fn any_feature_on(o: Seq<(Seq<char>, JsonV)>) -> bool {
    exists|i: int| 0 <= i < o.len() && as_bool(#[trigger] o[i].1) == Some(true)
}

/// A rule's `features` object names a feature the launcher leaves off.
pub open spec fn needs_feature(rule: JsonV) -> bool {
    match get(rule, "features"@) {
        Some(f) => match as_object(f) {
            Some(o) => any_feature_on(o),
            None => false,
        },
        None => false,
    }
}

/// A rule's `os` condition holds on `os` (no condition, or no `name` in it,
/// also holds).
pub open spec fn os_matches(rule: JsonV, os: Seq<char>) -> bool {
    match get(rule, "os"@) {
        None => true,
        Some(spec) => match str_of(get(spec, "name"@)) {
            None => true,
            Some(n) => n == os,
        },
    }
}

/// A rule's action, `allow` when it gives none.
pub open spec fn rule_action(rule: JsonV) -> Seq<char> {
    match as_str(at(rule, "action"@)) {
        Some(a) => a,
        None => "allow"@,
    }
}

/// The verdict after one more rule: rules that need a feature are skipped;
/// a rule whose OS condition holds decides by its action.
pub open spec fn rule_step(allow: bool, rule: JsonV, os: Seq<char>) -> bool {
    if needs_feature(rule) {
        allow
    } else if os_matches(rule, os) {
        rule_action(rule) == "allow"@
    } else {
        allow
    }
}

/// The verdict of a list of rules, starting from "disallowed".
pub open spec fn rules_fold(rules: Seq<JsonV>, os: Seq<char>) -> bool
    decreases rules.len(),
{
    if rules.len() == 0 {
        false
    } else {
        rule_step(rules_fold(rules.drop_last(), os), rules.last(), os)
    }
}

/// Whether an argument with these `rules` applies on `os`: always when
/// there is no rule list.
pub open spec fn rules_permit(rules: Option<JsonV>, os: Seq<char>) -> bool {
    match array_of(rules) {
        None => true,
        Some(rs) => rules_fold(rs, os),
    }
}

/// Decides whether an argument with these `rules` applies on `os` (the
/// name Mojang uses: `windows`, `osx` or `linux`).
pub fn rules_allow(rules: Option<&Json>, os: &str) -> (r: bool)
    ensures
        r == rules_permit(jopt(rules), os@),
{
    let list = match rules {
        Some(j) => j.as_array(),
        None => None,
    };
    let list = match list {
        Some(l) => l,
        None => {
            return true;
        },
    };
    let ghost rs = json_views(list@);
    let mut allow = false;
    let mut i: usize = 0;
    while i < list.len()
        invariant
            i <= list.len(),
            rs == json_views(list@),
            allow == rules_fold(rs.take(i as int), os@),
        decreases list.len() - i,
    {
        let rule = &list[i];
        assert(rs.take(i + 1).drop_last() =~= rs.take(i as int));
        assert(rs.take(i + 1).last() == rule@);
        let action = match rule.get("action") {
            Some(a) => match a.as_str() {
                Some(s) => s,
                None => "allow",
            },
            None => "allow",
        };
        assert(action@ == rule_action(rule@));
        let mut skip = false;
        match rule.get("features") {
            Some(f) => match f.as_object() {
                Some(o) => {
                    let ghost m = as_object(f@)->Some_0;
                    let mut k: usize = 0;
                    while k < o.len()
                        invariant
                            k <= o.len(),
                            m.len() == o.len(),
                            forall|j: int| 0 <= j < o.len() ==> #[trigger] m[j] == (o@[j].0@, o@[j].1@),
                            skip == exists|j: int| 0 <= j < k && as_bool(#[trigger] m[j].1) == Some(true),
                        decreases o.len() - k,
                    {
                        if o[k].1.as_bool() == Some(true) {
                            assert(as_bool(m[k as int].1) == Some(true));
                            skip = true;
                        }
                        k += 1;
                    }
                },
                None => {},
            },
            None => {},
        }
        assert(skip == needs_feature(rule@));
        if !skip {
            let os_ok = match rule.get("os") {
                None => true,
                Some(spec) => match spec.get("name") {
                    Some(n) => match n.as_str() {
                        Some(name) => str_eq(name, os),
                        None => true,
                    },
                    None => true,
                },
            };
            assert(os_ok == os_matches(rule@, os@));
            if os_ok {
                allow = str_eq(action, "allow");
            }
        }
        i += 1;
    }
    assert(rs.take(list.len() as int) =~= rs);
    allow
}

/// The string items of an argument's `value` array, substituted.
pub open spec fn value_args(arr: Seq<JsonV>, pairs: Seq<(Seq<char>, Seq<char>)>) -> Seq<Seq<char>>
    decreases arr.len(),
{
    if arr.len() == 0 {
        Seq::empty()
    } else {
        value_args(arr.drop_last(), pairs) + match as_str(arr.last()) {
            Some(s) => seq![substitute(s, pairs)],
            None => Seq::empty(),
        }
    }
}

/// The arguments one entry of an `arguments` list gives: a plain string, or
/// an object whose rules permit it and whose `value` is a string or a list.
pub open spec fn item_args(item: JsonV, pairs: Seq<(Seq<char>, Seq<char>)>, os: Seq<char>) -> Seq<Seq<char>> {
    match item {
        JsonV::Str(s) => seq![substitute(s, pairs)],
        _ => if !rules_permit(get(item, "rules"@), os) {
            Seq::empty()
        } else {
            match get(item, "value"@) {
                Some(JsonV::Str(s)) => seq![substitute(s, pairs)],
                Some(JsonV::Array(arr)) => value_args(arr, pairs),
                _ => Seq::empty(),
            }
        },
    }
}

pub open spec fn items_args(items: Seq<JsonV>, pairs: Seq<(Seq<char>, Seq<char>)>, os: Seq<char>) -> Seq<Seq<char>>
    decreases items.len(),
{
    if items.len() == 0 {
        Seq::empty()
    } else {
        items_args(items.drop_last(), pairs, os) + item_args(items.last(), pairs, os)
    }
}

/// The arguments of one side (`jvm` or `game`) of an `arguments` object.
pub open spec fn side_args(arguments: Option<JsonV>, side: Seq<char>, pairs: Seq<(Seq<char>, Seq<char>)>, os: Seq<char>) -> Seq<Seq<char>> {
    match array_of(get_opt(arguments, side)) {
        None => Seq::empty(),
        Some(items) => items_args(items, pairs, os),
    }
}

fn push_value_args(out: &mut Vec<String>, arr: &Vec<Json>, replacements: &Vec<(String, String)>)
    ensures
        sviews(final(out)@) == sviews(old(out)@) + value_args(json_views(arr@), pair_views(replacements@)),
{
    let ghost start = sviews(out@);
    let ghost vs = json_views(arr@);
    let mut i: usize = 0;
    while i < arr.len()
        invariant
            i <= arr.len(),
            vs == json_views(arr@),
            sviews(out@) == start + value_args(vs.take(i as int), pair_views(replacements@)),
        decreases arr.len() - i,
    {
        assert(vs.take(i + 1).drop_last() =~= vs.take(i as int));
        assert(vs.take(i + 1).last() == arr@[i as int]@);
        match arr[i].as_str() {
            Some(s) => {
                let t = replace_tokens(s, replacements);
                let ghost before = sviews(out@);
                out.push(t);
                assert(sviews(out@) =~= before.push(t@));
                assert(sviews(out@) =~= start + value_args(vs.take(i + 1), pair_views(replacements@)));
            },
            None => {
                assert(sviews(out@) =~= start + value_args(vs.take(i + 1), pair_views(replacements@)));
            },
        }
        i += 1;
    }
    assert(vs.take(arr.len() as int) =~= vs);
}

/// The `side` arguments (`jvm` or `game`) of an `arguments` object, with
/// tokens substituted and rules evaluated for `os`.
pub fn collect_args(
    arguments: Option<&Json>,
    side: &str,
    replacements: &Vec<(String, String)>,
    os: &str,
) -> (r: Vec<String>)
    ensures
        sviews(r@) == side_args(jopt(arguments), side@, pair_views(replacements@), os@),
{
    let mut out: Vec<String> = Vec::new();
    let list = match arguments {
        Some(a) => match a.get(side) {
            Some(l) => l.as_array(),
            None => None,
        },
        None => None,
    };
    let list = match list {
        Some(l) => l,
        None => {
            assert(sviews(out@) =~= Seq::<Seq<char>>::empty());
            return out;
        },
    };
    let ghost items = json_views(list@);
    let ghost pairs = pair_views(replacements@);
    let mut i: usize = 0;
    assert(sviews(out@) =~= items_args(items.take(0), pairs, os@));
    while i < list.len()
        invariant
            i <= list.len(),
            items == json_views(list@),
            pairs == pair_views(replacements@),
            sviews(out@) == items_args(items.take(i as int), pairs, os@),
        decreases list.len() - i,
    {
        let item = &list[i];
        assert(items.take(i + 1).drop_last() =~= items.take(i as int));
        assert(items.take(i + 1).last() == item@);
        let ghost before = sviews(out@);
        match item {
            Json::Str(s) => {
                let t = replace_tokens(s.as_str(), replacements);
                out.push(t);
                assert(sviews(out@) =~= before.push(t@));
                assert(sviews(out@) =~= before + item_args(item@, pairs, os@));
            },
            _ => {
                if rules_allow(item.get("rules"), os) {
                    match item.get("value") {
                        Some(v) => match v {
                            Json::Str(s) => {
                                let t = replace_tokens(s.as_str(), replacements);
                                out.push(t);
                                assert(sviews(out@) =~= before.push(t@));
                                assert(sviews(out@) =~= before + item_args(item@, pairs, os@));
                            },
                            Json::Array(arr) => {
                                proof {
                                    crate::json::lemma_array_view(*arr);
                                }
                                push_value_args(&mut out, arr, replacements);
                            },
                            _ => {
                                assert(sviews(out@) =~= before + item_args(item@, pairs, os@));
                            },
                        },
                        None => {
                            assert(sviews(out@) =~= before + item_args(item@, pairs, os@));
                        },
                    }
                } else {
                    assert(sviews(out@) =~= before + item_args(item@, pairs, os@));
                }
            },
        }
        i += 1;
    }
    assert(items.take(list.len() as int) =~= items);
    out
}

// ===========================================================================
// The Java command line
// ===========================================================================

/// The places and values one launch uses besides the instance, the session
/// and the two version documents.
pub struct LaunchPaths {
    pub game_dir: String,
    pub assets_dir: String,
    pub natives_dir: String,
    pub classpath: String,
    pub launcher_version: String,
}

/// The folders of a launch of `instance`: its game folder, the natives
/// under it (`{game_dir}/natives`), the shared assets under the cache
/// (`{cache_dir}/assets`), with the class path and the launcher's version.
pub fn launch_paths(instance: &Instance, cache_dir: &str, classpath: String, launcher_version: &str) -> (r: LaunchPaths)
    ensures
        r.game_dir@ == instance.game_dir@,
        r.natives_dir@ == join(instance.game_dir@, "natives"@),
        r.assets_dir@ == join(cache_dir@, "assets"@),
        r.classpath == classpath,
        r.launcher_version@ == launcher_version@,
{
    let gd = chars_of(instance.game_dir.as_str());
    LaunchPaths {
        game_dir: instance.game_dir.clone(),
        assets_dir: string_of(&path_join_str(&chars_of(cache_dir), "assets")),
        natives_dir: string_of(&path_join_str(&gd, "natives")),
        classpath,
        launcher_version: lit(launcher_version),
    }
}

/// The access token passed to the game; `0` for sessions without one.
pub open spec fn access_token_of(s: SessionDescriptor) -> Seq<char> {
    match s.access_token {
        Some(t) => t@,
        None => "0"@,
    }
}

/// `assetIndex.id` of the vanilla document, `legacy` when absent.
pub open spec fn asset_index_of(vanilla: JsonV) -> Seq<char> {
    match str_of(pointer(vanilla, "/assetIndex/id"@)) {
        Some(x) => x,
        None => "legacy"@,
    }
}

/// `type` of the vanilla document, `release` when absent.
pub open spec fn version_type_of(vanilla: JsonV) -> Seq<char> {
    match str_of(get(vanilla, "type"@)) {
        Some(t) => t,
        None => "release"@,
    }
}

/// The `${...}` tokens of launch arguments and their values, in the order
/// they are substituted.
pub open spec fn launch_pairs(
    session: SessionDescriptor,
    version_id: Seq<char>,
    paths: LaunchPaths,
    vanilla: JsonV,
) -> Seq<(Seq<char>, Seq<char>)> {
    seq![
        ("${auth_player_name}"@, session.name@),
        ("${version_name}"@, version_id),
        ("${game_directory}"@, paths.game_dir@),
        ("${assets_root}"@, paths.assets_dir@),
        ("${game_assets}"@, paths.assets_dir@),
        ("${assets_index_name}"@, asset_index_of(vanilla)),
        ("${auth_uuid}"@, session.uuid@),
        ("${auth_access_token}"@, access_token_of(session)),
        ("${auth_session}"@, access_token_of(session)),
        ("${user_type}"@, session.user_type@),
        ("${version_type}"@, version_type_of(vanilla)),
        ("${natives_directory}"@, paths.natives_dir@),
        ("${launcher_name}"@, "Aureum"@),
        ("${launcher_version}"@, paths.launcher_version@),
        ("${classpath}"@, paths.classpath@),
        ("${user_properties}"@, "{}"@),
        ("${clientid}"@, "aureum"@),
        ("${auth_xuid}"@, "0"@),
    ]
}

fn pair(a: &str, b: String) -> (r: (String, String))
    ensures
        r.0@ == a@,
        r.1@ == b@,
{
    (lit(a), b)
}

/// The token table of one launch (see [`launch_pairs`]).
pub fn launch_replacements(
    session: &SessionDescriptor,
    version_id: &str,
    paths: &LaunchPaths,
    vanilla: &Json,
) -> (r: Vec<(String, String)>)
    ensures
        pair_views(r@) == launch_pairs(*session, version_id@, *paths, vanilla@),
{
    let asset_index = match vanilla.pointer("/assetIndex/id") {
        Some(id) => match id.as_str() {
            Some(x) => lit(x),
            None => lit("legacy"),
        },
        None => lit("legacy"),
    };
    let version_type = match vanilla.get("type") {
        Some(t) => match t.as_str() {
            Some(x) => lit(x),
            None => lit("release"),
        },
        None => lit("release"),
    };
    let token = match &session.access_token {
        Some(t) => t.clone(),
        None => lit("0"),
    };
    let mut r: Vec<(String, String)> = Vec::new();
    r.push(pair("${auth_player_name}", session.name.clone()));
    r.push(pair("${version_name}", lit(version_id)));
    r.push(pair("${game_directory}", paths.game_dir.clone()));
    r.push(pair("${assets_root}", paths.assets_dir.clone()));
    r.push(pair("${game_assets}", paths.assets_dir.clone()));
    r.push(pair("${assets_index_name}", asset_index));
    r.push(pair("${auth_uuid}", session.uuid.clone()));
    r.push(pair("${auth_access_token}", token.clone()));
    r.push(pair("${auth_session}", token));
    r.push(pair("${user_type}", session.user_type.clone()));
    r.push(pair("${version_type}", version_type));
    r.push(pair("${natives_directory}", paths.natives_dir.clone()));
    r.push(pair("${launcher_name}", lit("Aureum")));
    r.push(pair("${launcher_version}", paths.launcher_version.clone()));
    r.push(pair("${classpath}", paths.classpath.clone()));
    r.push(pair("${user_properties}", lit("{}")));
    r.push(pair("${clientid}", lit("aureum")));
    r.push(pair("${auth_xuid}", lit("0")));
    assert(pair_views(r@) =~= launch_pairs(*session, version_id@, *paths, vanilla@));
    r
}

/// Half of `m`, rounded toward zero (Rust's `/` on integers).
pub open spec fn half(m: int) -> int {
    if m >= 0 {
        m / 2
    } else {
        -((-m) / 2)
    }
}

/// The heap settings and native library path that open every command line.
pub open spec fn memory_args(memory_mb: i64, natives: Seq<char>) -> Seq<Seq<char>> {
    let low = if half(memory_mb as int) >= 512 {
        half(memory_mb as int)
    } else {
        512
    };
    seq![
        "-Xms"@ + signed_decimal(low) + "M"@,
        "-Xmx"@ + signed_decimal(memory_mb as int) + "M"@,
        "-Djava.library.path="@ + natives,
    ]
}

/// The words of the launcher-wide extra JVM arguments, when non-empty.
pub open spec fn extra_words(extra: Option<Seq<char>>) -> Seq<Seq<char>> {
    match extra {
        Some(e) => if e.len() > 0 {
            split_args_spec(e)
        } else {
            Seq::empty()
        },
        None => Seq::empty(),
    }
}

/// The loader profile's `arguments` differ from the vanilla ones.
pub open spec fn args_differ(version: JsonV, vanilla: JsonV) -> bool {
    get(version, "arguments"@) != get(vanilla, "arguments"@)
}

/// The `side` arguments of the vanilla document, then those of the loader
/// profile when it has different ones.
pub open spec fn both_sides(
    version: JsonV,
    vanilla: JsonV,
    side: Seq<char>,
    pairs: Seq<(Seq<char>, Seq<char>)>,
    os: Seq<char>,
) -> Seq<Seq<char>> {
    side_args(get(vanilla, "arguments"@), side, pairs, os) + if args_differ(version, vanilla) {
        side_args(get(version, "arguments"@), side, pairs, os)
    } else {
        Seq::empty()
    }
}

/// Some argument already names the class path.
pub open spec fn has_classpath_flag(a: Seq<Seq<char>>) -> bool {
    exists|i: int| 0 <= i < a.len() && (a[i] == "-cp"@ || a[i] == "-classpath"@)
}

/// The main class: the loader profile's, else the vanilla one.
pub open spec fn main_class_of(version: JsonV, vanilla: JsonV) -> Option<Seq<char>> {
    match str_of(get(version, "mainClass"@)) {
        Some(m) => Some(m),
        None => str_of(get(vanilla, "mainClass"@)),
    }
}

/// The game arguments used when the documents give none.
pub open spec fn fallback_game_args(
    session: SessionDescriptor,
    version_id: Seq<char>,
    paths: LaunchPaths,
    vanilla: JsonV,
) -> Seq<Seq<char>> {
    seq![
        "--username"@, session.name@,
        "--version"@, version_id,
        "--gameDir"@, paths.game_dir@,
        "--assetsDir"@, paths.assets_dir@,
        "--assetIndex"@, asset_index_of(vanilla),
        "--uuid"@, session.uuid@,
        "--accessToken"@, access_token_of(session),
        "--userType"@, session.user_type@,
    ]
}

/// The JVM part of the command line, before the class path check.
pub open spec fn jvm_part(
    instance: Instance,
    version: JsonV,
    vanilla: JsonV,
    paths: LaunchPaths,
    extra: Option<Seq<char>>,
    pairs: Seq<(Seq<char>, Seq<char>)>,
    os: Seq<char>,
) -> Seq<Seq<char>> {
    memory_args(instance.memory_mb, paths.natives_dir@) + extra_words(extra) + match instance.jvm_args {
        Some(j) => split_args_spec(j@),
        None => Seq::empty(),
    } + both_sides(version, vanilla, "jvm"@, pairs, os)
}

/// The game part of the command line: the documents' game arguments, else
/// the legacy `minecraftArguments` string, else the fixed fallback.
pub open spec fn game_part(
    session: SessionDescriptor,
    version_id: Seq<char>,
    version: JsonV,
    vanilla: JsonV,
    paths: LaunchPaths,
    pairs: Seq<(Seq<char>, Seq<char>)>,
    os: Seq<char>,
) -> Seq<Seq<char>> {
    let g = both_sides(version, vanilla, "game"@, pairs, os);
    if g.len() == 0 {
        match str_of(get(vanilla, "minecraftArguments"@)) {
            Some(raw) => legacy_args(raw, pairs),
            None => fallback_game_args(session, version_id, paths, vanilla),
        }
    } else {
        g
    }
}

/// The arguments after `java`, when the documents name a main class.
pub open spec fn launch_command(
    instance: Instance,
    session: SessionDescriptor,
    version_id: Seq<char>,
    version: JsonV,
    vanilla: JsonV,
    paths: LaunchPaths,
    extra: Option<Seq<char>>,
    os: Seq<char>,
) -> Option<Seq<Seq<char>>> {
    let pairs = launch_pairs(session, version_id, paths, vanilla);
    match main_class_of(version, vanilla) {
        None => None,
        Some(mc) => {
            let jvm = jvm_part(instance, version, vanilla, paths, extra, pairs, os);
            let with_cp = if has_classpath_flag(jvm) {
                jvm
            } else {
                jvm + seq!["-cp"@, paths.classpath@]
            };
            Some(with_cp.push(mc) + game_part(session, version_id, version, vanilla, paths, pairs, os))
        },
    }
}

/// The view of an optional string slice.
pub open spec fn sopt(o: Option<&str>) -> Option<Seq<char>> {
    match o {
        Some(s) => Some(s@),
        None => None,
    }
}

fn push_all(out: &mut Vec<String>, more: Vec<String>)
    ensures
        sviews(final(out)@) == sviews(old(out)@) + sviews(more@),
{
    let mut more = more;
    let ghost a = out@;
    let ghost b = more@;
    out.append(&mut more);
    assert(sviews(out@) =~= sviews(a) + sviews(b));
}

fn decimal_arg(prefix: &str, n: i64, suffix: &str) -> (r: String)
    ensures
        r@ == prefix@ + signed_decimal(n as int) + suffix@,
{
    let mut v = chars_of(prefix);
    append(&mut v, &signed_decimal_of(n));
    append_str(&mut v, suffix);
    string_of(&v)
}

/// The repository path of a library entry: its `downloads.artifact.path`,
/// else the path its Maven `name` gives.
pub open spec fn library_rel(lib: JsonV) -> Option<Seq<char>> {
    match str_of(pointer(lib, "/downloads/artifact/path"@)) {
        Some(p) => Some(p),
        None => match str_of(get(lib, "name"@)) {
            Some(n) => Some(maven_jar_rel(n)),
            None => None,
        },
    }
}

/// For each library with a path: where the shared cache keeps it and where
/// the instance's own `libraries` folder would.
pub open spec fn library_places(libs: Seq<JsonV>, cache_dir: Seq<char>, game_dir: Seq<char>) -> Seq<(Seq<char>, Seq<char>)>
    decreases libs.len(),
{
    if libs.len() == 0 {
        Seq::empty()
    } else {
        library_places(libs.drop_last(), cache_dir, game_dir) + match library_rel(libs.last()) {
            Some(rel) => seq![(join(join(cache_dir, "libraries"@), rel), join(join(game_dir, "libraries"@), rel))],
            None => Seq::empty(),
        }
    }
}

/// The candidate places of the class path entries of one version document:
/// for each library, the cached copy (used when that file exists) and the
/// instance copy.
pub fn library_candidates(json: &Json, cache_dir: &str, game_dir: &str) -> (r: Vec<(String, String)>)
    ensures
        pair_views(r@) == match array_of(get(json@, "libraries"@)) {
            Some(libs) => library_places(libs, cache_dir@, game_dir@),
            None => Seq::empty(),
        },
{
    let mut out: Vec<(String, String)> = Vec::new();
    let libs = match json.get("libraries") {
        Some(l) => l.as_array(),
        None => None,
    };
    let libs = match libs {
        Some(l) => l,
        None => {
            assert(pair_views(out@) =~= Seq::<(Seq<char>, Seq<char>)>::empty());
            return out;
        },
    };
    let ghost ls = json_views(libs@);
    let cache_root = path_join_str(&chars_of(cache_dir), "libraries");
    let game_root = path_join_str(&chars_of(game_dir), "libraries");
    let mut i: usize = 0;
    assert(pair_views(out@) =~= library_places(ls.take(0), cache_dir@, game_dir@));
    while i < libs.len()
        invariant
            i <= libs.len(),
            ls == json_views(libs@),
            cache_root@ == join(cache_dir@, "libraries"@),
            game_root@ == join(game_dir@, "libraries"@),
            pair_views(out@) == library_places(ls.take(i as int), cache_dir@, game_dir@),
        decreases libs.len() - i,
    {
        let lib = &libs[i];
        assert(ls.take(i + 1).drop_last() =~= ls.take(i as int));
        assert(ls.take(i + 1).last() == lib@);
        let artifact_path = match lib.pointer("/downloads/artifact/path") {
            Some(p) => p.as_str(),
            None => None,
        };
        let rel = match artifact_path {
            Some(p) => Some(chars_of(p)),
            None => match lib.get("name") {
                Some(n) => match n.as_str() {
                    Some(name) => Some(chars_of(maven_path(name).as_str())),
                    None => None,
                },
                None => None,
            },
        };
        let ghost before = pair_views(out@);
        match rel {
            Some(rel) => {
                let cached = string_of(&path_join(&cache_root, &rel));
                let local = string_of(&path_join(&game_root, &rel));
                out.push((cached, local));
                assert(pair_views(out@) =~= before + seq![(cached@, local@)]);
            },
            None => {
                assert(pair_views(out@) =~= before);
            },
        }
        i += 1;
    }
    assert(ls.take(libs.len() as int) =~= ls);
    out
}

/// Whether the loader profile's `arguments` differ from the vanilla ones.
fn arguments_differ(version_args: Option<&Json>, vanilla_args: Option<&Json>) -> (r: bool)
    ensures
        r == (jopt(version_args) != jopt(vanilla_args)),
{
    match (version_args, vanilla_args) {
        (None, None) => false,
        (Some(a), Some(b)) => !same(a, b),
        _ => true,
    }
}

/// The JVM part of a command line (see [`jvm_part`]).
fn jvm_args_of(
    instance: &Instance,
    version_json: &Json,
    vanilla_json: &Json,
    paths: &LaunchPaths,
    extra_jvm: Option<&str>,
    replacements: &Vec<(String, String)>,
    os: &str,
) -> (r: Vec<String>)
    ensures
        sviews(r@) == jvm_part(
            *instance,
            version_json@,
            vanilla_json@,
            *paths,
            sopt(extra_jvm),
            pair_views(replacements@),
            os@,
        ),
{
    let m = instance.memory_mb;
    let h = m / 2;
    assert(h == half(m as int));
    let low = if h >= 512 { h } else { 512 };
    let mut args: Vec<String> = Vec::new();
    args.push(decimal_arg("-Xms", low, "M"));
    args.push(decimal_arg("-Xmx", m, "M"));
    let mut lib = chars_of("-Djava.library.path=");
    append(&mut lib, &chars_of(paths.natives_dir.as_str()));
    args.push(string_of(&lib));
    assert(sviews(args@) =~= memory_args(instance.memory_mb, paths.natives_dir@));
    match extra_jvm {
        Some(e) => {
            if chars_of(e).len() > 0 {
                push_all(&mut args, split_args(e));
            } else {
                assert(extra_words(sopt(extra_jvm)) =~= Seq::<Seq<char>>::empty());
            }
        },
        None => {},
    }
    match &instance.jvm_args {
        Some(j) => push_all(&mut args, split_args(j.as_str())),
        None => {},
    }
    let vanilla_args = vanilla_json.get("arguments");
    let version_args = version_json.get("arguments");
    let differ = arguments_differ(version_args, vanilla_args);
    push_all(&mut args, collect_args(vanilla_args, "jvm", replacements, os));
    if differ {
        push_all(&mut args, collect_args(version_args, "jvm", replacements, os));
    }
    assert(sviews(args@) =~= jvm_part(
        *instance,
        version_json@,
        vanilla_json@,
        *paths,
        sopt(extra_jvm),
        pair_views(replacements@),
        os@,
    ));
    args
}

/// Appends `-cp {classpath}` unless some argument already names the class path.
fn ensure_classpath(args: &mut Vec<String>, classpath: &String)
    ensures
        sviews(final(args)@) == if has_classpath_flag(sviews(old(args)@)) {
            sviews(old(args)@)
        } else {
            sviews(old(args)@) + seq!["-cp"@, classpath@]
        },
{
    let ghost jvm = sviews(args@);
    let mut has_cp = false;
    let mut i: usize = 0;
    while i < args.len()
        invariant
            i <= args.len(),
            jvm == sviews(args@),
            has_cp == exists|k: int| 0 <= k < i && (jvm[k] == "-cp"@ || jvm[k] == "-classpath"@),
        decreases args.len() - i,
    {
        let a = args[i].as_str();
        if str_eq(a, "-cp") || str_eq(a, "-classpath") {
            assert(jvm[i as int] == a@);
            has_cp = true;
        }
        i += 1;
    }
    if !has_cp {
        args.push(lit("-cp"));
        args.push(classpath.clone());
        assert(sviews(args@) =~= jvm + seq!["-cp"@, classpath@]);
    }
}

/// The fixed game arguments (see [`fallback_game_args`]).
fn fallback_args(
    session: &SessionDescriptor,
    version_id: &str,
    paths: &LaunchPaths,
    vanilla_json: &Json,
    replacements: &Vec<(String, String)>,
) -> (r: Vec<String>)
    requires
        pair_views(replacements@) == launch_pairs(*session, version_id@, *paths, vanilla_json@),
    ensures
        sviews(r@) == fallback_game_args(*session, version_id@, *paths, vanilla_json@),
{
    let ghost pairs = pair_views(replacements@);
    assert(pairs.len() == 18);
    assert(replacements.len() == 18);
    assert(pairs[5] == ("${assets_index_name}"@, asset_index_of(vanilla_json@)));
    assert(pairs[7] == ("${auth_access_token}"@, access_token_of(*session)));
    let mut fb: Vec<String> = Vec::new();
    fb.push(lit("--username"));
    fb.push(session.name.clone());
    fb.push(lit("--version"));
    fb.push(lit(version_id));
    fb.push(lit("--gameDir"));
    fb.push(paths.game_dir.clone());
    fb.push(lit("--assetsDir"));
    fb.push(paths.assets_dir.clone());
    fb.push(lit("--assetIndex"));
    fb.push(replacements[5].1.clone());
    fb.push(lit("--uuid"));
    fb.push(session.uuid.clone());
    fb.push(lit("--accessToken"));
    fb.push(replacements[7].1.clone());
    fb.push(lit("--userType"));
    fb.push(session.user_type.clone());
    assert(sviews(fb@) =~= fallback_game_args(*session, version_id@, *paths, vanilla_json@));
    fb
}

/// The game part of a command line (see [`game_part`]).
fn game_args_of(
    session: &SessionDescriptor,
    version_id: &str,
    version_json: &Json,
    vanilla_json: &Json,
    paths: &LaunchPaths,
    replacements: &Vec<(String, String)>,
    os: &str,
) -> (r: Vec<String>)
    requires
        pair_views(replacements@) == launch_pairs(*session, version_id@, *paths, vanilla_json@),
    ensures
        sviews(r@) == game_part(
            *session,
            version_id@,
            version_json@,
            vanilla_json@,
            *paths,
            pair_views(replacements@),
            os@,
        ),
{
    let vanilla_args = vanilla_json.get("arguments");
    let version_args = version_json.get("arguments");
    let differ = arguments_differ(version_args, vanilla_args);
    let mut game = collect_args(vanilla_args, "game", replacements, os);
    if differ {
        push_all(&mut game, collect_args(version_args, "game", replacements, os));
    }
    assert(sviews(game@) =~= both_sides(
        version_json@,
        vanilla_json@,
        "game"@,
        pair_views(replacements@),
        os@,
    ));
    if game.len() == 0 {
        let legacy = match vanilla_json.get("minecraftArguments") {
            Some(l) => l.as_str(),
            None => None,
        };
        match legacy {
            Some(raw) => interpolate_legacy(raw, replacements),
            None => fallback_args(session, version_id, paths, vanilla_json, replacements),
        }
    } else {
        game
    }
}

/// The arguments after `java` for one launch (see [`launch_command`]):
/// heap settings, extra and per-instance JVM arguments, the documents' JVM
/// arguments, the class path, the main class and the game arguments. A
/// document without a main class is refused.
pub fn launch_args(
    instance: &Instance,
    session: &SessionDescriptor,
    version_id: &str,
    version_json: &Json,
    vanilla_json: &Json,
    paths: &LaunchPaths,
    extra_jvm: Option<&str>,
    os: &str,
) -> (r: AppResult<Vec<String>>)
    ensures
        match launch_command(
            *instance,
            *session,
            version_id@,
            version_json@,
            vanilla_json@,
            *paths,
            sopt(extra_jvm),
            os@,
        ) {
            Some(cmd) => r matches Ok(v) && sviews(v@) == cmd,
            None => r matches Err(e) && e.message@
                == "Version JSON is missing mainClass \u{2014} install first"@,
        },
{
    let main_class = match version_json.get("mainClass") {
        Some(m) => m.as_str(),
        None => None,
    };
    let main_class = match main_class {
        Some(m) => Some(m),
        None => match vanilla_json.get("mainClass") {
            Some(m) => m.as_str(),
            None => None,
        },
    };
    let main_class = match main_class {
        Some(m) => lit(m),
        None => {
            return Err(AppError::lit("Version JSON is missing mainClass \u{2014} install first"));
        },
    };
    let replacements = launch_replacements(session, version_id, paths, vanilla_json);
    let mut args = jvm_args_of(instance, version_json, vanilla_json, paths, extra_jvm, &replacements, os);
    ensure_classpath(&mut args, &paths.classpath);
    args.push(main_class);
    let game = game_args_of(session, version_id, version_json, vanilla_json, paths, &replacements, os);
    push_all(&mut args, game);
    Ok(args)
}

// ===========================================================================
// Log tail
// ===========================================================================

/// The log files a tail reads, in order, under `{game_dir}/logs`.
pub open spec fn tail_files() -> Seq<Seq<char>> {
    seq!["latest.log"@, "aureum-launch.log"@]
}

/// The paths of the log files a tail reads.
pub fn tail_paths(instance: &Instance) -> (r: Vec<String>)
    ensures
        r@.len() == 2,
        forall|i: int| 0 <= i < 2 ==> #[trigger] r@[i]@ == join(join(instance.game_dir@, "logs"@), tail_files()[i]),
{
    let logs = path_join_str(&chars_of(instance.game_dir.as_str()), "logs");
    let mut v: Vec<String> = Vec::new();
    v.push(string_of(&path_join_str(&logs, "latest.log")));
    v.push(string_of(&path_join_str(&logs, "aureum-launch.log")));
    v
}

/// The lines of the texts, one after the other.
pub open spec fn all_lines(texts: Seq<Seq<char>>) -> Seq<Seq<char>>
    decreases texts.len(),
{
    if texts.len() == 0 {
        Seq::empty()
    } else {
        all_lines(texts.drop_last()) + crate::forge::lines(texts.last())
    }
}

/// The last `n` lines of the log texts that could be read (at most `n`).
pub fn tail_log(texts: &Vec<String>, n: usize) -> (r: Vec<String>)
    ensures
        ({
            let ls = all_lines(sviews(texts@));
            sviews(r@) == ls.skip(if ls.len() > n {
                ls.len() - n
            } else {
                0
            })
        }),
{
    let mut collected: Vec<String> = Vec::new();
    let mut i: usize = 0;
    while i < texts.len()
        invariant
            i <= texts.len(),
            sviews(collected@) == all_lines(sviews(texts@).take(i as int)),
        decreases texts.len() - i,
    {
        assert(sviews(texts@).take(i + 1).drop_last() =~= sviews(texts@).take(i as int));
        assert(sviews(texts@).take(i + 1).last() == texts@[i as int]@);
        let ls = crate::forge::lines_exec(texts[i].as_str());
        let mut k: usize = 0;
        let ghost base = sviews(collected@);
        while k < ls.len()
            invariant
                k <= ls.len(),
                sviews(collected@) == base + crate::text::views(ls@).take(k as int),
            decreases ls.len() - k,
        {
            let ghost before = sviews(collected@);
            collected.push(string_of(&ls[k]));
            assert(crate::text::views(ls@).take(k + 1) =~= crate::text::views(ls@).take(k as int).push(ls@[k as int]@));
            assert(sviews(collected@) =~= before.push(ls@[k as int]@));
            k += 1;
        }
        assert(crate::text::views(ls@).take(ls.len() as int) =~= crate::text::views(ls@));
        i += 1;
    }
    assert(sviews(texts@).take(texts.len() as int) =~= sviews(texts@));
    let start: usize = if collected.len() > n {
        collected.len() - n
    } else {
        0
    };
    let mut out: Vec<String> = Vec::new();
    let mut j = start;
    let ghost all = sviews(collected@);
    while j < collected.len()
        invariant
            start <= j <= collected.len(),
            all == sviews(collected@),
            sviews(out@) == all.subrange(start as int, j as int),
        decreases collected.len() - j,
    {
        let ghost before = sviews(out@);
        out.push(collected[j].clone());
        assert(sviews(out@) =~= before.push(all[j as int]));
        assert(all.subrange(start as int, j + 1) =~= all.subrange(start as int, j as int).push(all[j as int]));
        j += 1;
    }
    assert(all.subrange(start as int, collected.len() as int) =~= all.skip(start as int));
    out
}

/// `{game_dir}/versions/{id}/{id}.json`.
pub open spec fn version_json_of(game_dir: Seq<char>, id: Seq<char>) -> Seq<char> {
    join(join(join(game_dir, "versions"@), id), id + ".json"@)
}

pub fn version_json_path(game_dir: &str, id: &str) -> (r: String)
    ensures
        r@ == version_json_of(game_dir@, id@),
{
    let versions = path_join_str(&chars_of(game_dir), "versions");
    let dir = path_join_str(&versions, id);
    let mut file = chars_of(id);
    append_str(&mut file, ".json");
    string_of(&path_join(&dir, &file))
}

/// The version document a launch reads: the one of `version_id` when it is
/// a file (`version_is_file`), else the vanilla one of `game_version` when
/// that is (`vanilla_is_file`); an instance with neither is not installed.
pub fn version_doc_path(
    game_dir: &str,
    version_id: &str,
    game_version: &str,
    version_is_file: bool,
    vanilla_is_file: bool,
) -> (r: AppResult<String>)
    ensures
        version_is_file ==> (r matches Ok(p) && p@ == version_json_of(game_dir@, version_id@)),
        !version_is_file && vanilla_is_file ==> (r matches Ok(p) && p@ == version_json_of(
            game_dir@,
            game_version@,
        )),
        !version_is_file && !vanilla_is_file ==> (r matches Err(e) && e.message@
            == "Instance is not installed yet. Use Install first."@),
{
    if version_is_file {
        Ok(version_json_path(game_dir, version_id))
    } else if vanilla_is_file {
        Ok(version_json_path(game_dir, game_version))
    } else {
        Err(AppError::lit("Instance is not installed yet. Use Install first."))
    }
}

/// A session without a token (every offline session) launches with the
/// placeholder token `0` in both token slots.
pub proof fn law_tokenless_launch(
    session: SessionDescriptor,
    version_id: Seq<char>,
    paths: LaunchPaths,
    vanilla: JsonV,
)
    requires
        session.access_token is None,
    ensures
        launch_pairs(session, version_id, paths, vanilla)[7] == ("${auth_access_token}"@, "0"@),
        launch_pairs(session, version_id, paths, vanilla)[8] == ("${auth_session}"@, "0"@),
        fallback_game_args(session, version_id, paths, vanilla)[13] == "0"@,
{
}

/// A launch opens with the heap settings and the native library path, in
/// that order, and passes a class path: with the folders of
/// [`launch_paths`], the natives are the game folder's `natives`.
pub proof fn law_launch_opening(
    instance: Instance,
    session: SessionDescriptor,
    version_id: Seq<char>,
    version: JsonV,
    vanilla: JsonV,
    paths: LaunchPaths,
    extra: Option<Seq<char>>,
    os: Seq<char>,
)
    requires
        launch_command(instance, session, version_id, version, vanilla, paths, extra, os) is Some,
        paths.natives_dir@ == join(instance.game_dir@, "natives"@),
    ensures
        ({
            let cmd = launch_command(instance, session, version_id, version, vanilla, paths, extra, os)->0;
            &&& cmd.len() >= 3
            &&& cmd[0] == "-Xms"@ + signed_decimal(if half(instance.memory_mb as int) >= 512 {
                half(instance.memory_mb as int)
            } else {
                512
            }) + "M"@
            &&& cmd[1] == "-Xmx"@ + signed_decimal(instance.memory_mb as int) + "M"@
            &&& cmd[2] == "-Djava.library.path="@ + join(instance.game_dir@, "natives"@)
            &&& has_classpath_flag(cmd)
        }),
{
    let pairs = launch_pairs(session, version_id, paths, vanilla);
    let mc = main_class_of(version, vanilla)->0;
    let jvm = jvm_part(instance, version, vanilla, paths, extra, pairs, os);
    let with_cp = if has_classpath_flag(jvm) {
        jvm
    } else {
        jvm + seq!["-cp"@, paths.classpath@]
    };
    let cmd = with_cp.push(mc) + game_part(session, version_id, version, vanilla, paths, pairs, os);
    assert(launch_command(instance, session, version_id, version, vanilla, paths, extra, os)->0 == cmd);
    let m = memory_args(instance.memory_mb, paths.natives_dir@);
    assert(jvm.len() >= 3 && jvm[0] == m[0] && jvm[1] == m[1] && jvm[2] == m[2]);
    assert(cmd[0] == jvm[0] && cmd[1] == jvm[1] && cmd[2] == jvm[2]);
    if has_classpath_flag(jvm) {
        let i = choose|i: int| 0 <= i < jvm.len() && (jvm[i] == "-cp"@ || jvm[i] == "-classpath"@);
        assert(cmd[i] == jvm[i]);
    } else {
        assert(cmd[jvm.len() as int] == "-cp"@);
    }
}


/// A rule whose `features` object sets some feature to `true`.
pub open spec fn feature_gated(r: JsonV) -> bool {
    exists|o: Seq<(Seq<char>, JsonV)>, i: int|
        get(r, "features"@) == Some(JsonV::Object(o)) && 0 <= i < o.len() && #[trigger] o[i].1 == JsonV::Bool(true)
}

proof fn lemma_gated_skipped(r: JsonV)
    requires
        feature_gated(r),
    ensures
        needs_feature(r),
{
    let (o, i) = choose|o: Seq<(Seq<char>, JsonV)>, i: int|
        get(r, "features"@) == Some(JsonV::Object(o)) && 0 <= i < o.len() && #[trigger] o[i].1 == JsonV::Bool(true);
    assert(as_bool(o[i].1) == Some(true));
}

/// Features stay off: a rule that asks for a feature (its `features`
/// object sets one to `true`, as the `--demo` and quick-play arguments do)
/// never changes whether an argument applies, whatever its action or OS.
pub proof fn law_feature_rules_ignored(rules: Seq<JsonV>, r: JsonV, os: Seq<char>)
    requires
        feature_gated(r),
    ensures
        rules_permit(Some(JsonV::Array(rules.push(r))), os) == rules_permit(Some(JsonV::Array(rules)), os),
{
    lemma_gated_skipped(r);
    assert(rules.push(r).drop_last() =~= rules);
}

/// An argument whose rules all ask for a feature is never passed.
pub proof fn law_feature_only_rules_deny(rules: Seq<JsonV>, os: Seq<char>)
    requires
        forall|k: int| 0 <= k < rules.len() ==> feature_gated(#[trigger] rules[k]),
    ensures
        !rules_permit(Some(JsonV::Array(rules)), os),
    decreases rules.len(),
{
    if rules.len() > 0 {
        let d = rules.drop_last();
        assert forall|k: int| 0 <= k < d.len() implies feature_gated(#[trigger] d[k]) by {
            assert(d[k] == rules[k]);
        }
        law_feature_only_rules_deny(d, os);
        assert(d.push(rules.last()) =~= rules);
        law_feature_rules_ignored(d, rules.last(), os);
    }
}

} // verus!
