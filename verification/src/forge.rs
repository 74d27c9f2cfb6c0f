//! Forge and NeoForge installs from the official installer jars: the
//! installer address, the installer's data values and the processors it
//! asks to run, with their `{TOKEN}` and `[maven:coordinate]` arguments
//! resolved to paths.
use vstd::prelude::*;
use crate::error::{AppError, AppResult};
use crate::instances::client_jar_of;
use crate::json::{Json, JsonV, as_array, as_object, as_str, get, json_views, str_of};
use crate::launch::{pair_views, substitute, sviews};
use crate::maven::{lemma_maven_rel_lacks, maven_rel, maven_rel_path};
use crate::paths::{join, path_join, path_join_str};
use crate::text::{
    append, append_str, chars_of, count_char, ends_with, find_char, index_of, lacks, lemma_concat_lacks,
    lemma_count_concat, lemma_count_lacks, lemma_index_of, lit, replace, replace_all, slice,
    starts_with, str_eq, string_of, trim, trimmed, has_prefix_str, has_suffix_str, copy, eq_str,
    split, split_on, views, oview, contains_seq, has_suffix, eq,
};
use crate::install::{LoaderVersion, first_stable_at, pick_loader_version, strip_leading};

verus! {

// ===========================================================================
// Token and coordinate substitution
// ===========================================================================

/// `{key}`.
pub open spec fn brace(k: Seq<char>) -> Seq<char> {
    seq!['{'] + k + seq!['}']
}

/// The data map's keys written as `{key}` tokens.
pub open spec fn braced(pairs: Seq<(Seq<char>, Seq<char>)>) -> Seq<(Seq<char>, Seq<char>)> {
    pairs.map_values(|p: (Seq<char>, Seq<char>)| (brace(p.0), p.1))
}

/// The libraries folder may hold `[` or `]`, but not both: a resolved
/// coordinate can then never open a new `[...]` pair around old text.
pub open spec fn root_ok(lib_root: Seq<char>) -> bool {
    lacks(lib_root, '[') || lacks(lib_root, ']')
}

/// No `]` stands after a `[`.
pub open spec fn closes_first(p: Seq<char>) -> bool {
    forall|j: int, k: int|
        0 <= j < p.len() && 0 <= k < p.len() && p[j] == ']' && p[k] == '[' ==> j < k
}

/// The number of `]` at or after the first `[` (none when there is no `[`).
pub open spec fn open_tail(s: Seq<char>) -> nat {
    match index_of(s, '[') {
        None => 0,
        Some(i) => count_char(s.skip(i), ']'),
    }
}

proof fn lemma_count_skip(x: Seq<char>, k: int, c: char)
    requires
        0 <= k <= x.len(),
    ensures
        count_char(x.skip(k), c) <= count_char(x, c),
{
    assert(x =~= x.take(k) + x.skip(k));
    lemma_count_concat(x.take(k), x.skip(k), c);
}

proof fn lemma_closes_first_concat(a: Seq<char>, b: Seq<char>)
    requires
        lacks(a, '['),
        lacks(b, ']'),
    ensures
        closes_first(a + b),
{
    assert forall|j: int, k: int|
        0 <= j < (a + b).len() && 0 <= k < (a + b).len() && (a + b)[j] == ']' && (a + b)[k]
            == '[' implies j < k by {
        if j >= a.len() {
            assert((a + b)[j] == b[j - a.len()]);
        }
        if k < a.len() {
            assert((a + b)[k] == a[k]);
        }
    }
}

proof fn lemma_open_tail_bound(pre: Seq<char>, path: Seq<char>, post: Seq<char>)
    requires
        lacks(pre, '['),
        closes_first(path),
    ensures
        open_tail(pre + path + post) <= count_char(post, ']'),
{
    let s = pre + path + post;
    lemma_index_of(s, '[');
    match index_of(s, '[') {
        None => {},
        Some(i) => {
            let n = pre.len() + path.len();
            if i >= n {
                assert(s.skip(i) =~= post.skip(i - n));
                lemma_count_skip(post, i - n, ']');
            } else {
                if i < pre.len() {
                    assert(s[i] == pre[i]);
                }
                let k = i - pre.len();
                assert(path[k] == '[');
                let tail = path.skip(k);
                assert forall|t: int| 0 <= t < tail.len() implies tail[t] != ']' by {
                    assert(tail[t] == path[k + t]);
                }
                assert(s.skip(i) =~= tail + post);
                lemma_count_lacks(tail, ']');
                lemma_count_concat(tail, post, ']');
            }
        },
    }
}

/// Resolving one coordinate lowers the number of `]` after the first `[`.
pub proof fn lemma_coord_step(out: Seq<char>, lib_root: Seq<char>, start: int, end: int)
    requires
        root_ok(lib_root),
        index_of(out, '[') == Some(start),
        index_of(out.skip(start + 1), ']') == Some(end),
    ensures
        open_tail(
            out.take(start) + join(lib_root, maven_rel(out.skip(start + 1).take(end))) + out.skip(
                start + 1,
            ).skip(end + 1),
        ) < open_tail(out),
{
    lemma_index_of(out, '[');
    let rest = out.skip(start + 1);
    lemma_index_of(rest, ']');
    let coord = rest.take(end);
    assert(lacks(coord, ']'));
    lemma_maven_rel_lacks(coord, ']');
    let m = maven_rel(coord);
    let pre = out.take(start);
    let post = rest.skip(end + 1);
    assert(lacks(pre, '['));
    let path = join(lib_root, m);
    if m.len() > 0 && m[0] == '/' {
        assert(closes_first(path));
    } else {
        let base = if lib_root.len() == 0 || lib_root.last() == '/' {
            lib_root
        } else {
            lib_root + seq!['/']
        };
        assert(path =~= base + m);
        if lacks(lib_root, '[') {
            lemma_concat_lacks(lib_root, seq!['/'], '[');
            lemma_closes_first_concat(base, m);
        } else {
            lemma_concat_lacks(lib_root, seq!['/'], ']');
            lemma_concat_lacks(base, m, ']');
        }
    }
    lemma_open_tail_bound(pre, path, post);
    lemma_count_lacks(coord, ']');
    assert(out.skip(start) =~= seq![out[start]] + coord + seq![rest[end]] + post);
    lemma_count_concat(seq![out[start]], coord, ']');
    lemma_count_concat(seq![out[start]] + coord, seq![rest[end]], ']');
    lemma_count_concat(seq![out[start]] + coord + seq![rest[end]], post, ']');
    assert(count_char(Seq::<char>::empty(), ']') == 0);
    assert(count_char(seq![out[start]], ']') == 0) by {
        assert(seq![out[start]].drop_last() =~= Seq::<char>::empty());
    }
    assert(count_char(seq![rest[end]], ']') == 1) by {
        assert(seq![rest[end]].drop_last() =~= Seq::<char>::empty());
    }
}

/// Every `[coordinate]` replaced, from the left, by the path of that Maven
/// coordinate under `lib_root`, until no `[` is followed by a `]`.
pub open spec fn coord_pass(out: Seq<char>, lib_root: Seq<char>) -> Seq<char>
    decreases open_tail(out),
    when root_ok(lib_root)
{
    match index_of(out, '[') {
        None => out,
        Some(start) => {
            let rest = out.skip(start + 1);
            match index_of(rest, ']') {
                None => out,
                Some(end) => {
                    proof {
                        lemma_coord_step(out, lib_root, start, end);
                    }
                    coord_pass(
                        out.take(start) + join(lib_root, maven_rel(rest.take(end))) + rest.skip(
                            end + 1,
                        ),
                        lib_root,
                    )
                },
            }
        },
    }
}

/// A processor argument with the data map's `{KEY}` tokens substituted
/// (in the map's order) and then its `[coordinate]`s resolved to library
/// paths.
pub open spec fn subst_spec(input: Seq<char>, data: Seq<(Seq<char>, Seq<char>)>, lib_root: Seq<char>) -> Seq<char> {
    coord_pass(substitute(input, braced(data)), lib_root)
}

/// Substitutes the data map's tokens and the Maven coordinates of an
/// installer argument (see [`subst_spec`]). The libraries folder must not
/// hold both `[` and `]`, so that every resolved coordinate leaves fewer
/// `]` after the first `[`.
pub fn subst(input: &str, data: &Vec<(String, String)>, lib_root: &str) -> (r: String)
    requires
        root_ok(lib_root@),
    ensures
        r@ == subst_spec(input@, pair_views(data@), lib_root@),
{
    let ghost pairs = braced(pair_views(data@));
    let mut out = chars_of(input);
    let mut i: usize = 0;
    while i < data.len()
        invariant
            i <= data.len(),
            pairs == braced(pair_views(data@)),
            out@ == substitute(input@, pairs.take(i as int)),
        decreases data.len() - i,
    {
        assert(pairs.take(i + 1).drop_last() =~= pairs.take(i as int));
        let mut key = vec!['{'];
        append_str(&mut key, data[i].0.as_str());
        key.push('}');
        assert(key@ =~= brace(data@[i as int].0@));
        let to = chars_of(data[i].1.as_str());
        out = replace_all(&out, &key, &to);
        i += 1;
    }
    assert(pairs.take(data.len() as int) =~= pairs);
    let ghost first = out@;
    let root = chars_of(lib_root);
    loop
        invariant
            root@ == lib_root@,
            root_ok(lib_root@),
            coord_pass(out@, lib_root@) == coord_pass(first, lib_root@),
        ensures
            out@ == coord_pass(first, lib_root@),
        decreases open_tail(out@),
    {
        let start = match find_char(&out, '[') {
            Some(s) => s,
            None => {
                break;
            },
        };
        proof {
            lemma_index_of(out@, '[');
        }
        let rest = slice(&out, start + 1, out.len());
        assert(rest@ =~= out@.skip(start + 1));
        let end = match find_char(&rest, ']') {
            Some(e) => e,
            None => {
                break;
            },
        };
        proof {
            lemma_index_of(rest@, ']');
            lemma_coord_step(out@, lib_root@, start as int, end as int);
        }
        let coord = slice(&rest, 0, end);
        assert(coord@ =~= rest@.take(end as int));
        let path = path_join(&root, &chars_of(maven_rel_path(string_of(&coord).as_str()).as_str()));
        let mut next = slice(&out, 0, start);
        append(&mut next, &path);
        append(&mut next, &slice(&rest, end + 1, rest.len()));
        assert(next@ =~= out@.take(start as int) + join(lib_root@, maven_rel(rest@.take(end as int)))
            + rest@.skip(end + 1));
        out = next;
    }
    string_of(&out)
}

// ===========================================================================
// Installer
// ===========================================================================

/// The official installer address of a Forge or NeoForge version.
pub fn installer_url(loader: &str, version: &str) -> (r: AppResult<String>)
    ensures
        loader@ == "forge"@ ==> (r matches Ok(u) && u@ == replace(
            "https://maven.minecraftforge.net/net/minecraftforge/forge/{ver}/forge-{ver}-installer.jar"@,
            "{ver}"@,
            version@,
        )),
        loader@ != "forge"@ && loader@ == "neoforge"@ ==> (r matches Ok(u) && u@ == replace(
            "https://maven.neoforged.net/releases/net/neoforged/neoforge/{ver}/neoforge-{ver}-installer.jar"@,
            "{ver}"@,
            version@,
        )),
        loader@ != "forge"@ && loader@ != "neoforge"@ ==> (r matches Err(e) && e.message@
            == "Not a Forge-family loader: "@ + loader@),
{
    let template = if str_eq(loader, "forge") {
        "https://maven.minecraftforge.net/net/minecraftforge/forge/{ver}/forge-{ver}-installer.jar"
    } else if str_eq(loader, "neoforge") {
        "https://maven.neoforged.net/releases/net/neoforged/neoforge/{ver}/neoforge-{ver}-installer.jar"
    } else {
        let mut m = chars_of("Not a Forge-family loader: ");
        append_str(&mut m, loader);
        return Err(AppError::msg(string_of(&m)));
    };
    let u = replace_all(&chars_of(template), &chars_of("{ver}"), &chars_of(version));
    Ok(string_of(&u))
}

/// The Forge or NeoForge version to install: the instance's own, else the
/// first stable one published for the game version, else the first
/// published; refused when none is.
pub fn resolve_loader_version(
    loader: &str,
    game_version: &str,
    requested: &Option<String>,
    offered: &Vec<LoaderVersion>,
) -> (r: AppResult<String>)
    ensures
        match requested {
            Some(v) if v@.len() > 0 => r matches Ok(x) && x@ == v@,
            _ => if exists|i: int| first_stable_at(offered@, i) {
                r matches Ok(x) && exists|i: int|
                    first_stable_at(offered@, i) && x@ == offered@[i].version@
            } else if offered.len() > 0 {
                r matches Ok(x) && x@ == offered@[0].version@
            } else {
                r matches Err(e) && e.message@ == "No "@ + loader@ + " versions published for "@
                    + game_version@
            },
        },
{
    match pick_loader_version(requested, offered) {
        Ok(v) => Ok(v),
        Err(_) => {
            let mut m = chars_of("No ");
            append_str(&mut m, loader);
            append_str(&mut m, " versions published for ");
            append_str(&mut m, game_version);
            Err(AppError::msg(string_of(&m)))
        },
    }
}

/// `{cache_dir}/installers/{loader}-{version}-installer.jar`.
pub open spec fn installer_path_of(cache_dir: Seq<char>, loader: Seq<char>, version: Seq<char>) -> Seq<char> {
    join(join(cache_dir, "installers"@), loader + seq!['-'] + version + "-installer.jar"@)
}

pub fn installer_path(cache_dir: &str, loader: &str, version: &str) -> (r: String)
    ensures
        r@ == installer_path_of(cache_dir@, loader@, version@),
{
    let dir = path_join_str(&chars_of(cache_dir), "installers");
    let mut leaf = chars_of(loader);
    leaf.push('-');
    append_str(&mut leaf, version);
    append_str(&mut leaf, "-installer.jar");
    assert(leaf@ =~= loader@ + seq!['-'] + version@ + "-installer.jar"@);
    string_of(&path_join(&dir, &leaf))
}

/// The name of the version document inside an installer: the profile's
/// `json` entry without leading slashes, when it has one.
pub open spec fn version_entry_of(profile: JsonV) -> Option<Seq<char>> {
    match str_of(get(profile, "json"@)) {
        Some(rel) => Some(strip_leading(rel, '/')),
        None => None,
    }
}

pub fn version_entry(profile: &Json) -> (r: Option<String>)
    ensures
        oview(r) == version_entry_of(profile@),
{
    let rel = match profile.get("json") {
        Some(j) => j.as_str(),
        None => None,
    };
    match rel {
        Some(r) => {
            let cs = chars_of(r);
            let mut k: usize = 0;
            assert(cs@.skip(0) =~= cs@);
            while k < cs.len() && cs[k] == '/'
                invariant
                    k <= cs.len(),
                    strip_leading(cs@, '/') == strip_leading(cs@.skip(k as int), '/'),
                decreases cs.len() - k,
            {
                assert(cs@.skip(k as int).drop_first() =~= cs@.skip(k + 1));
                k += 1;
            }
            let out = slice(&cs, k, cs.len());
            assert(out@ =~= cs@.skip(k as int));
            Some(string_of(&out))
        },
        None => None,
    }
}

/// The installer's version document with `inheritsFrom` set to the game
/// version when it does not name one. The document must be an object (or
/// `null`, which becomes one).
pub open spec fn with_inherits_of(doc: JsonV, game_version: Seq<char>) -> JsonV {
    match doc {
        JsonV::Object(o) => if get(doc, "inheritsFrom"@) is Some {
            doc
        } else {
            JsonV::Object(o.push(("inheritsFrom"@, JsonV::Str(game_version))))
        },
        _ => JsonV::Object(seq![("inheritsFrom"@, JsonV::Str(game_version))]),
    }
}

pub fn with_inherits(doc: Json, game_version: &str) -> (r: Json)
    requires
        doc is Object || doc is Null,
    ensures
        r@ == with_inherits_of(doc@, game_version@),
{
    let ghost dv = doc@;
    let has = doc.get("inheritsFrom").is_some();
    match doc {
        Json::Object(o) => {
            if has {
                return Json::Object(o);
            }
            proof {
                crate::json::lemma_object_view(o);
            }
            let ghost m0 = dv->Object_0;
            let mut o = o;
            o.push((lit("inheritsFrom"), Json::Str(lit(game_version))));
            let r = Json::Object(o);
            proof {
                crate::json::lemma_object_view(o);
                assert(r@->Object_0 =~= m0.push(("inheritsFrom"@, JsonV::Str(game_version@))));
            }
            r
        },
        _ => {
            let mut o: Vec<(String, Json)> = Vec::new();
            o.push((lit("inheritsFrom"), Json::Str(lit(game_version))));
            let r = Json::Object(o);
            proof {
                crate::json::lemma_object_view(o);
                assert(r@->Object_0 =~= seq![("inheritsFrom"@, JsonV::Str(game_version@))]);
            }
            r
        },
    }
}

/// The id an installed loader profile is written under (its `id`, else the
/// `{loader}-{game}` alias), and the alias itself, under which it is also
/// written when the two differ.
pub fn profile_ids(version_json: &Json, loader: &str, game_version: &str) -> (r: (String, String))
    ensures
        r.1@ == loader@ + seq!['-'] + game_version@,
        r.0@ == match str_of(get(version_json@, "id"@)) {
            Some(id) => id,
            None => loader@ + seq!['-'] + game_version@,
        },
{
    let mut alias = chars_of(loader);
    alias.push('-');
    append_str(&mut alias, game_version);
    assert(alias@ =~= loader@ + seq!['-'] + game_version@);
    let alias = string_of(&alias);
    let id = match version_json.get("id") {
        Some(i) => match i.as_str() {
            Some(x) => lit(x),
            None => alias.clone(),
        },
        None => alias.clone(),
    };
    (id, alias)
}

// ===========================================================================
// Installer data
// ===========================================================================

/// An installer data value: ready, or a file to extract from the installer
/// (`rel`) to `dest`, which then is the value.
pub enum DataValue {
    Ready(String),
    Extract { rel: String, dest: String },
}

/// The view of a data value.
pub enum DataV {
    Ready(Seq<char>),
    Extract(Seq<char>, Seq<char>),
}

pub open spec fn data_view(d: DataValue) -> DataV {
    match d {
        DataValue::Ready(s) => DataV::Ready(s@),
        DataValue::Extract { rel, dest } => DataV::Extract(rel@, dest@),
    }
}

/// The value of a raw installer data entry (trimmed): `[coordinate]` is the
/// library path, `'text'` the quoted text, `/path` a file extracted from
/// the installer into `work`, anything else itself.
pub open spec fn data_value_of(raw: Seq<char>, lib_root: Seq<char>, work: Seq<char>) -> DataV {
    let t = trim(raw);
    if starts_with(t, seq!['[']) && ends_with(t, seq![']']) {
        DataV::Ready(join(lib_root, maven_rel(t.subrange(1, t.len() - 1))))
    } else if starts_with(t, seq!['\'']) && ends_with(t, seq!['\'']) && t.len() >= 2 {
        DataV::Ready(t.subrange(1, t.len() - 1))
    } else if starts_with(t, seq!['/']) {
        DataV::Extract(strip_leading(t, '/'), join(work, strip_leading(t, '/')))
    } else {
        DataV::Ready(t)
    }
}

pub fn resolve_data_value(raw: &str, lib_root: &str, work: &str) -> (r: DataValue)
    ensures
        data_view(r) == data_value_of(raw@, lib_root@, work@),
{
    let t = trimmed(&chars_of(raw));
    let n = t.len();
    let open_sq = n > 0 && t[0] == '[';
    let close_sq = n > 0 && t[n - 1] == ']';
    let open_q = n > 0 && t[0] == '\'';
    let close_q = n > 0 && t[n - 1] == '\'';
    proof {
        if n > 0 {
            assert(t@.take(1) =~= seq![t@[0]]);
            assert(t@.skip(n - 1) =~= seq![t@[n - 1]]);
            assert(t@.take(1)[0] == t@[0]);
            assert(t@.skip(n - 1)[0] == t@[n - 1]);
            if t@[0] == '[' {
                assert(t@.take(1) =~= seq!['[']);
            }
            if t@[n - 1] == ']' {
                assert(t@.skip(n - 1) =~= seq![']']);
            }
            if t@[0] == '\'' {
                assert(t@.take(1) =~= seq!['\'']);
            }
            if t@[n - 1] == '\'' {
                assert(t@.skip(n - 1) =~= seq!['\'']);
            }
        }
    }
    assert(open_sq == starts_with(t@, seq!['[']));
    assert(close_sq == ends_with(t@, seq![']']));
    assert(open_q == starts_with(t@, seq!['\'']));
    assert(close_q == ends_with(t@, seq!['\'']));
    if open_sq && close_sq {
        assert(n >= 2);
        let coord = slice(&t, 1, n - 1);
        let path = path_join(
            &chars_of(lib_root),
            &chars_of(maven_rel_path(string_of(&coord).as_str()).as_str()),
        );
        return DataValue::Ready(string_of(&path));
    }
    if open_q && close_q && n >= 2 {
        return DataValue::Ready(string_of(&slice(&t, 1, n - 1)));
    }
    let open_slash = n > 0 && t[0] == '/';
    proof {
        if n > 0 && t@[0] == '/' {
            assert(t@.take(1) =~= seq!['/']);
        }
        if n > 0 {
            assert(t@.take(1)[0] == t@[0]);
        }
    }
    assert(open_slash == starts_with(t@, seq!['/']));
    if open_slash {
        let mut k: usize = 0;
        assert(t@.skip(0) =~= t@);
        while k < t.len() && t[k] == '/'
            invariant
                k <= t.len(),
                strip_leading(t@, '/') == strip_leading(t@.skip(k as int), '/'),
            decreases t.len() - k,
        {
            assert(t@.skip(k as int).drop_first() =~= t@.skip(k + 1));
            k += 1;
        }
        let rel = slice(&t, k, t.len());
        assert(rel@ =~= t@.skip(k as int));
        let dest = path_join(&chars_of(work), &rel);
        return DataValue::Extract { rel: string_of(&rel), dest: string_of(&dest) };
    }
    DataValue::Ready(string_of(&t))
}

/// The raw text of an installer data entry: its `client` string, else the
/// entry itself when a string, else empty.
pub open spec fn data_raw(val: JsonV) -> Seq<char> {
    match str_of(get(val, "client"@)) {
        Some(s) => s,
        None => match as_str(val) {
            Some(s) => s,
            None => Seq::empty(),
        },
    }
}

pub type DataEntries = Seq<(Seq<char>, DataV)>;

/// `list` with `k` set to `v`: the first entry with that key is replaced,
/// or the pair is appended (a map insert).
pub open spec fn entry_insert(list: DataEntries, k: Seq<char>, v: DataV) -> DataEntries {
    if exists|i: int| first_entry_at(list, k, i) {
        list.update(choose|i: int| first_entry_at(list, k, i), (k, v))
    } else {
        list.push((k, v))
    }
}

/// `list[i]` is the first entry with key `k`.
pub open spec fn first_entry_at(list: DataEntries, k: Seq<char>, i: int) -> bool {
    0 <= i < list.len() && list[i].0 == k && forall|j: int| 0 <= j < i ==> list[j].0 != k
}

/// The data map of an installer run: the built-in `SIDE`, `MINECRAFT_JAR`,
/// `ROOT`, `INSTALLER` and `LIBRARY_DIR`, then each entry of the profile's
/// `data` object (a later key replaces an earlier one).
pub open spec fn data_base(installer: Seq<char>, game_dir: Seq<char>, lib_root: Seq<char>, game_version: Seq<char>) -> DataEntries {
    seq![
        ("SIDE"@, DataV::Ready("client"@)),
        ("MINECRAFT_JAR"@, DataV::Ready(client_jar_of(game_dir, game_version))),
        ("ROOT"@, DataV::Ready(game_dir)),
        ("INSTALLER"@, DataV::Ready(installer)),
        ("LIBRARY_DIR"@, DataV::Ready(lib_root)),
    ]
}

pub open spec fn data_fold(members: Seq<(Seq<char>, JsonV)>, start: DataEntries, lib_root: Seq<char>, work: Seq<char>) -> DataEntries
    decreases members.len(),
{
    if members.len() == 0 {
        start
    } else {
        let prev = data_fold(members.drop_last(), start, lib_root, work);
        entry_insert(prev, members.last().0, data_value_of(data_raw(members.last().1), lib_root, work))
    }
}

pub open spec fn data_map_of(
    profile: JsonV,
    installer: Seq<char>,
    game_dir: Seq<char>,
    lib_root: Seq<char>,
    work: Seq<char>,
    game_version: Seq<char>,
) -> DataEntries {
    let base = data_base(installer, game_dir, lib_root, game_version);
    match get(profile, "data"@) {
        Some(JsonV::Object(o)) => data_fold(o, base, lib_root, work),
        _ => base,
    }
}

pub open spec fn entry_views(v: Seq<(String, DataValue)>) -> DataEntries {
    v.map_values(|p: (String, DataValue)| (p.0@, data_view(p.1)))
}

fn insert_entry(list: &mut Vec<(String, DataValue)>, key: String, value: DataValue)
    ensures
        entry_views(final(list)@) == entry_insert(entry_views(old(list)@), key@, data_view(value)),
{
    let ghost before = entry_views(list@);
    let mut i: usize = 0;
    while i < list.len()
        invariant
            i <= list.len(),
            list@ == old(list)@,
            before == entry_views(list@),
            forall|j: int| 0 <= j < i ==> before[j].0 != key@,
        decreases list.len() - i,
    {
        if str_eq(list[i].0.as_str(), key.as_str()) {
            let ghost kv = key@;
            let ghost dv = data_view(value);
            assert(before[i as int].0 == kv);
            assert(first_entry_at(before, kv, i as int));
            let ghost c = choose|c: int| first_entry_at(before, kv, c);
            assert(c == i) by {
                if c > i {
                    assert(before[i as int].0 != kv);
                }
            }
            list.set(i, (key, value));
            assert(entry_views(list@) =~= before.update(i as int, (kv, dv)));
            return;
        }
        i += 1;
    }
    let ghost kv = key@;
    let ghost dv = data_view(value);
    assert(!exists|c: int| first_entry_at(before, kv, c));
    list.push((key, value));
    assert(entry_views(list@) =~= before.push((kv, dv)));
}

/// The data map of an installer run (see [`data_map_of`]); extracted values
/// are left for the caller to extract.
pub fn build_data_map(
    profile: &Json,
    installer: &str,
    game_dir: &str,
    lib_root: &str,
    work: &str,
    game_version: &str,
) -> (r: Vec<(String, DataValue)>)
    ensures
        entry_views(r@) == data_map_of(profile@, installer@, game_dir@, lib_root@, work@, game_version@),
{
    let mut map: Vec<(String, DataValue)> = Vec::new();
    let client_jar = path_join(
        &path_join_str(&path_join_str(&chars_of(game_dir), "versions"), game_version),
        &{
            let mut leaf = chars_of(game_version);
            append_str(&mut leaf, ".jar");
            leaf
        },
    );
    map.push((lit("SIDE"), DataValue::Ready(lit("client"))));
    map.push((lit("MINECRAFT_JAR"), DataValue::Ready(string_of(&client_jar))));
    map.push((lit("ROOT"), DataValue::Ready(lit(game_dir))));
    map.push((lit("INSTALLER"), DataValue::Ready(lit(installer))));
    map.push((lit("LIBRARY_DIR"), DataValue::Ready(lit(lib_root))));
    let ghost base = data_base(installer@, game_dir@, lib_root@, game_version@);
    assert(entry_views(map@) =~= base);
    let data = match profile.get("data") {
        Some(d) => d.as_object(),
        None => None,
    };
    let data = match data {
        Some(d) => d,
        None => {
            return map;
        },
    };
    let ghost m = crate::json::as_object(get(profile@, "data"@)->Some_0)->Some_0;
    let mut i: usize = 0;
    assert(m.take(0) =~= Seq::<(Seq<char>, JsonV)>::empty());
    while i < data.len()
        invariant
            i <= data.len(),
            m.len() == data.len(),
            get(profile@, "data"@) == Some(JsonV::Object(m)),
            forall|k: int| 0 <= k < data.len() ==> #[trigger] m[k] == (data@[k].0@, data@[k].1@),
            entry_views(map@) == data_fold(m.take(i as int), base, lib_root@, work@),
        decreases data.len() - i,
    {
        assert(m.take(i + 1).drop_last() =~= m.take(i as int));
        assert(m.take(i + 1).last() == m[i as int]);
        let val = &data[i].1;
        let raw = match val.get("client") {
            Some(c) => c.as_str(),
            None => None,
        };
        let raw = match raw {
            Some(r) => r,
            None => match val.as_str() {
                Some(r) => r,
                None => "",
            },
        };
        proof {
            reveal_strlit("");
        }
        assert(raw@ == data_raw(val@));
        let value = resolve_data_value(raw, lib_root, work);
        insert_entry(&mut map, data[i].0.clone(), value);
        i += 1;
    }
    assert(m.take(data.len() as int) =~= m);
    map
}

/// The installer entry a data file is read from: the first whose name is
/// `rel`, `/rel`, or ends with `rel`.
pub open spec fn entry_matches(name: Seq<char>, rel: Seq<char>) -> bool {
    name == rel || name == seq!['/'] + rel || ends_with(name, rel)
}

pub fn installer_entry(names: &Vec<String>, rel: &str) -> (r: Option<usize>)
    ensures
        match r {
            Some(i) => i < names.len() && entry_matches(names@[i as int]@, rel@) && forall|j: int|
                0 <= j < i ==> !entry_matches(#[trigger] names@[j]@, rel@),
            None => forall|j: int| 0 <= j < names.len() ==> !entry_matches(#[trigger] names@[j]@, rel@),
        },
{
    let rv = chars_of(rel);
    let mut slash_rel = vec!['/'];
    append(&mut slash_rel, &rv);
    assert(slash_rel@ =~= seq!['/'] + rel@);
    let mut i: usize = 0;
    while i < names.len()
        invariant
            i <= names.len(),
            rv@ == rel@,
            slash_rel@ == seq!['/'] + rel@,
            forall|j: int| 0 <= j < i ==> !entry_matches(#[trigger] names@[j]@, rel@),
        decreases names.len() - i,
    {
        let n = chars_of(names[i].as_str());
        if eq(&n, &rv) || eq(&n, &slash_rel) || has_suffix(&n, &rv) {
            return Some(i);
        }
        i += 1;
    }
    None
}

// ===========================================================================
// Processors
// ===========================================================================

/// A processor runs for the client: it lists no `sides`, or lists `client`.
pub open spec fn runs_on_client_spec(proc: JsonV) -> bool {
    match crate::json::array_of(get(proc, "sides"@)) {
        None => true,
        Some(sides) => exists|i: int| 0 <= i < sides.len() && as_str(#[trigger] sides[i]) == Some("client"@),
    }
}

pub fn runs_on_client(proc: &Json) -> (b: bool)
    ensures
        b == runs_on_client_spec(proc@),
{
    let sides = match proc.get("sides") {
        Some(s) => s.as_array(),
        None => None,
    };
    let sides = match sides {
        Some(s) => s,
        None => {
            return true;
        },
    };
    let ghost vs = json_views(sides@);
    let mut i: usize = 0;
    while i < sides.len()
        invariant
            i <= sides.len(),
            vs == json_views(sides@),
            crate::json::array_of(get(proc@, "sides"@)) == Some(vs),
            forall|j: int| 0 <= j < i ==> as_str(#[trigger] vs[j]) != Some("client"@),
        decreases sides.len() - i,
    {
        match sides[i].as_str() {
            Some(x) => {
                if str_eq(x, "client") {
                    assert(as_str(vs[i as int]) == Some("client"@));
                    return true;
                }
            },
            None => {},
        }
        i += 1;
    }
    false
}

/// The files a processor produces, as the paths its `outputs` keys name
/// (tokens substituted, coordinates resolved against `.`); none when it
/// declares no outputs.
pub open spec fn processor_outputs_of(proc: JsonV, data: Seq<(Seq<char>, Seq<char>)>) -> Seq<Seq<char>> {
    match get(proc, "outputs"@) {
        Some(JsonV::Object(o)) => output_paths(o, data),
        _ => Seq::empty(),
    }
}

/// The paths the keys of an `outputs` object name.
pub open spec fn output_paths(o: Seq<(Seq<char>, JsonV)>, data: Seq<(Seq<char>, Seq<char>)>) -> Seq<Seq<char>>
    decreases o.len(),
{
    if o.len() == 0 {
        Seq::empty()
    } else {
        output_paths(o.drop_last(), data).push(subst_spec(o.last().0, data, "."@))
    }
}

/// The output files of a processor (see [`processor_outputs_of`]); the
/// processor is skipped when there is at least one and all exist.
pub fn processor_outputs(proc: &Json, data: &Vec<(String, String)>) -> (r: Vec<String>)
    ensures
        sviews(r@) == processor_outputs_of(proc@, pair_views(data@)),
{
    let mut r: Vec<String> = Vec::new();
    let outputs = match proc.get("outputs") {
        Some(o) => o.as_object(),
        None => None,
    };
    let outputs = match outputs {
        Some(o) => o,
        None => {
            assert(sviews(r@) =~= Seq::<Seq<char>>::empty());
            return r;
        },
    };
    proof {
        reveal_strlit(".");
        assert("."@.len() == 1);
    }
    let ghost m = crate::json::as_object(get(proc@, "outputs"@)->Some_0)->Some_0;
    let mut i: usize = 0;
    while i < outputs.len()
        invariant
            i <= outputs.len(),
            root_ok("."@),
            m.len() == outputs.len(),
            get(proc@, "outputs"@) == Some(JsonV::Object(m)),
            forall|k: int| 0 <= k < outputs.len() ==> #[trigger] m[k] == (outputs@[k].0@, outputs@[k].1@),
            sviews(r@) == output_paths(m.take(i as int), pair_views(data@)),
        decreases outputs.len() - i,
    {
        let path = subst(outputs[i].0.as_str(), data, ".");
        let ghost before = sviews(r@);
        r.push(path);
        assert(m.take(i + 1).drop_last() =~= m.take(i as int));
        assert(sviews(r@) =~= before.push(path@));
        i += 1;
    }
    assert(m.take(outputs.len() as int) =~= m);
    r
}

/// A processor invocation: the jar to run, the rest of its class path, and
/// its arguments.
pub struct ProcessorCommand {
    pub jar: String,
    pub classpath: Vec<String>,
    pub args: Vec<String>,
}

/// The library paths of the string entries of a list of Maven names.
pub open spec fn lib_paths(items: Seq<JsonV>, lib_root: Seq<char>) -> Seq<Seq<char>>
    decreases items.len(),
{
    if items.len() == 0 {
        Seq::empty()
    } else {
        lib_paths(items.drop_last(), lib_root) + match as_str(items.last()) {
            Some(n) => seq![join(lib_root, maven_rel(n))],
            None => Seq::empty(),
        }
    }
}

/// The string entries of a list of arguments, substituted.
pub open spec fn subst_args(items: Seq<JsonV>, data: Seq<(Seq<char>, Seq<char>)>, lib_root: Seq<char>) -> Seq<Seq<char>>
    decreases items.len(),
{
    if items.len() == 0 {
        Seq::empty()
    } else {
        subst_args(items.drop_last(), data, lib_root) + match as_str(items.last()) {
            Some(a) => seq![subst_spec(a, data, lib_root)],
            None => Seq::empty(),
        }
    }
}

fn list_of(v: Option<&Json>) -> (r: Option<&Vec<Json>>)
    ensures
        match r {
            Some(a) => crate::json::array_of(match v {
                Some(x) => Some(x@),
                None => None,
            }) == Some(json_views(a@)),
            None => crate::json::array_of(match v {
                Some(x) => Some(x@),
                None => None,
            }) is None,
        },
{
    match v {
        Some(x) => x.as_array(),
        None => None,
    }
}

/// The invocation of a processor whose `jar` names its Maven jar: the jar
/// under `lib_root`, its `classpath` entries under `lib_root`, and its
/// `args` substituted; a processor without `jar` is refused.
pub fn processor_command(proc: &Json, data: &Vec<(String, String)>, lib_root: &str) -> (r: AppResult<ProcessorCommand>)
    requires
        root_ok(lib_root@),
    ensures
        match str_of(get(proc@, "jar"@)) {
            None => r matches Err(e) && e.message@ == "Processor is missing jar"@,
            Some(name) => r matches Ok(c) && c.jar@ == join(lib_root@, maven_rel(name))
                && sviews(c.classpath@) == match crate::json::array_of(get(proc@, "classpath"@)) {
                Some(items) => lib_paths(items, lib_root@),
                None => Seq::empty(),
            } && sviews(c.args@) == match crate::json::array_of(get(proc@, "args"@)) {
                Some(items) => subst_args(items, pair_views(data@), lib_root@),
                None => Seq::empty(),
            },
        },
{
    let name = match proc.get("jar") {
        Some(j) => j.as_str(),
        None => None,
    };
    let name = match name {
        Some(n) => n,
        None => {
            return Err(AppError::lit("Processor is missing jar"));
        },
    };
    let root = chars_of(lib_root);
    let jar = string_of(&path_join(&root, &chars_of(maven_rel_path(name).as_str())));
    let mut classpath: Vec<String> = Vec::new();
    match list_of(proc.get("classpath")) {
        Some(items) => {
            let ghost vs = json_views(items@);
            let mut i: usize = 0;
            assert(sviews(classpath@) =~= lib_paths(vs.take(0), lib_root@));
            while i < items.len()
                invariant
                    i <= items.len(),
                    root@ == lib_root@,
                    vs == json_views(items@),
                    sviews(classpath@) == lib_paths(vs.take(i as int), lib_root@),
                decreases items.len() - i,
            {
                assert(vs.take(i + 1).drop_last() =~= vs.take(i as int));
                assert(vs.take(i + 1).last() == items@[i as int]@);
                let ghost before = sviews(classpath@);
                match items[i].as_str() {
                    Some(n) => {
                        let p = string_of(&path_join(&root, &chars_of(maven_rel_path(n).as_str())));
                        classpath.push(p);
                        assert(sviews(classpath@) =~= before.push(p@));
                    },
                    None => {},
                }
                i += 1;
            }
            assert(vs.take(items.len() as int) =~= vs);
        },
        None => {
            assert(sviews(classpath@) =~= Seq::<Seq<char>>::empty());
        },
    }
    let mut args: Vec<String> = Vec::new();
    match list_of(proc.get("args")) {
        Some(items) => {
            let ghost vs = json_views(items@);
            let mut i: usize = 0;
            assert(sviews(args@) =~= subst_args(vs.take(0), pair_views(data@), lib_root@));
            while i < items.len()
                invariant
                    i <= items.len(),
                    root_ok(lib_root@),
                    vs == json_views(items@),
                    sviews(args@) == subst_args(vs.take(i as int), pair_views(data@), lib_root@),
                decreases items.len() - i,
            {
                assert(vs.take(i + 1).drop_last() =~= vs.take(i as int));
                assert(vs.take(i + 1).last() == items@[i as int]@);
                let ghost before = sviews(args@);
                match items[i].as_str() {
                    Some(a) => {
                        let t = subst(a, data, lib_root);
                        args.push(t);
                        assert(sviews(args@) =~= before.push(t@));
                    },
                    None => {},
                }
                i += 1;
            }
            assert(vs.take(items.len() as int) =~= vs);
        },
        None => {
            assert(sviews(args@) =~= Seq::<Seq<char>>::empty());
        },
    }
    Ok(ProcessorCommand { jar, classpath, args })
}

// ===========================================================================
// Jar manifests
// ===========================================================================

/// `l` without one trailing carriage return.
pub open spec fn strip_cr(l: Seq<char>) -> Seq<char> {
    if l.len() > 0 && l.last() == '\r' {
        l.drop_last()
    } else {
        l
    }
}

/// Each of `ls` without a trailing carriage return.
pub open spec fn strip_all(ls: Seq<Seq<char>>) -> Seq<Seq<char>>
    decreases ls.len(),
{
    if ls.len() == 0 {
        Seq::empty()
    } else {
        strip_all(ls.drop_last()).push(strip_cr(ls.last()))
    }
}

/// The lines of `s` (std's `str::lines`): pieces between line feeds, a
/// carriage return before a line feed dropped, and no empty last line.
pub open spec fn lines(s: Seq<char>) -> Seq<Seq<char>> {
    let ps = split(s, '\n');
    let init = strip_all(ps.drop_last());
    if ps.last().len() == 0 {
        init
    } else {
        init.push(ps.last())
    }
}

/// The `Main-Class` value of a logical manifest line, if it is one.
pub open spec fn main_class_in(line: Seq<char>) -> Option<Seq<char>> {
    if starts_with(line, "Main-Class:"@) {
        Some(trim(line.skip("Main-Class:"@.len() as int)))
    } else {
        None
    }
}

/// Reading manifest lines: continuation lines (starting with a space) are
/// joined to the logical line before them; the first complete logical line
/// that is `Main-Class:` gives the answer.
pub open spec fn manifest_scan(ls: Seq<Seq<char>>) -> (Option<Seq<char>>, Seq<char>)
    decreases ls.len(),
{
    if ls.len() == 0 {
        (None, Seq::empty())
    } else {
        let (found, cont) = manifest_scan(ls.drop_last());
        let line = ls.last();
        if found is Some {
            (found, cont)
        } else if line.len() > 0 && line[0] == ' ' {
            (None, cont + line.drop_first())
        } else if cont.len() > 0 && main_class_in(cont) is Some {
            (main_class_in(cont), cont)
        } else {
            (None, line)
        }
    }
}

/// The `Main-Class` of a jar manifest text, if it declares one.
pub open spec fn manifest_main_class_of(text: Seq<char>) -> Option<Seq<char>> {
    let (found, cont) = manifest_scan(lines(text));
    match found {
        Some(c) => Some(c),
        None => main_class_in(cont),
    }
}

fn main_class_exec(line: &Vec<char>) -> (r: Option<Vec<char>>)
    ensures
        match r {
            Some(c) => main_class_in(line@) == Some(c@),
            None => main_class_in(line@) is None,
        },
{
    if has_prefix_str(line, "Main-Class:") {
        let k = chars_of("Main-Class:").len();
        let rest = slice(line, k, line.len());
        assert(rest@ =~= line@.skip("Main-Class:"@.len() as int));
        Some(trimmed(&rest))
    } else {
        None
    }
}

pub fn lines_exec(text: &str) -> (r: Vec<Vec<char>>)
    ensures
        views(r@) == lines(text@),
{
    let parts = split_on(&chars_of(text), '\n');
    proof {
        crate::text::lemma_split_nonempty(text@, '\n');
    }
    let ghost ps = views(parts@);
    let n = parts.len();
    let mut out: Vec<Vec<char>> = Vec::new();
    let mut i: usize = 0;
    while i + 1 < n
        invariant
            n == parts.len(),
            n >= 1,
            i + 1 <= n,
            ps == views(parts@),
            views(out@) == strip_all(ps.drop_last().take(i as int)),
        decreases n - i,
    {
        let l = &parts[i];
        let line = if l.len() > 0 && l[l.len() - 1] == '\r' {
            slice(l, 0, l.len() - 1)
        } else {
            copy(l)
        };
        assert(line@ =~= strip_cr(ps[i as int]));
        let ghost before = views(out@);
        out.push(line);
        assert(ps.drop_last().take(i + 1).drop_last() =~= ps.drop_last().take(i as int));
        assert(views(out@) =~= before.push(line@));
        i += 1;
    }
    assert(ps.drop_last().take(i as int) =~= ps.drop_last());
    let last = &parts[n - 1];
    if last.len() > 0 {
        let ghost before = views(out@);
        out.push(copy(last));
        assert(views(out@) =~= before.push(ps.last()));
    }
    out
}

/// The `Main-Class` a jar manifest declares (see [`manifest_main_class_of`]).
pub fn manifest_main_class(text: &str) -> (r: Option<String>)
    ensures
        oview(r) == manifest_main_class_of(text@),
{
    let ls = lines_exec(text);
    let ghost lv = views(ls@);
    let mut cont: Vec<char> = Vec::new();
    let mut i: usize = 0;
    while i < ls.len()
        invariant
            i <= ls.len(),
            lv == views(ls@),
            lv == lines(text@),
            manifest_scan(lv.take(i as int)) == (None::<Seq<char>>, cont@),
        decreases ls.len() - i,
    {
        let line = &ls[i];
        assert(lv.take(i + 1).drop_last() =~= lv.take(i as int));
        assert(lv.take(i + 1).last() == line@);
        if line.len() > 0 && line[0] == ' ' {
            let rest = slice(line, 1, line.len());
            assert(rest@ =~= line@.drop_first());
            append(&mut cont, &rest);
        } else {
            if cont.len() > 0 {
                match main_class_exec(&cont) {
                    Some(c) => {
                        proof {
                            lemma_scan_found_stays(lv, i + 1);
                        }
                        return Some(string_of(&c));
                    },
                    None => {},
                }
            }
            cont = copy(line);
        }
        i += 1;
    }
    assert(lv.take(ls.len() as int) =~= lv);
    match main_class_exec(&cont) {
        Some(c) => Some(string_of(&c)),
        None => None,
    }
}

/// Once found, the answer of a manifest scan no longer changes.
proof fn lemma_scan_found_stays(ls: Seq<Seq<char>>, i: int)
    requires
        0 <= i <= ls.len(),
        manifest_scan(ls.take(i)).0 is Some,
    ensures
        manifest_scan(ls).0 == manifest_scan(ls.take(i)).0,
    decreases ls.len() - i,
{
    if i < ls.len() {
        assert(ls.take(i + 1).drop_last() =~= ls.take(i));
        lemma_scan_found_stays(ls, i + 1);
    } else {
        assert(ls.take(i) =~= ls);
    }
}

/// The error shown when both the processors and the official installer
/// failed.
pub open spec fn install_failure_of(loader: Seq<char>, processors: Seq<char>, installer: Seq<char>, game_version: Seq<char>) -> Seq<char> {
    loader + " install failed.\nProcessors: "@ + processors + "\nInstaller: "@ + installer
        + "\nEnsure Java runs headless, the vanilla "@ + game_version
        + " jar is present, and the instance folder is writable."@
}

pub fn install_failure(loader: &str, processors: &str, installer: &str, game_version: &str) -> (e: AppError)
    ensures
        e.message@ == install_failure_of(loader@, processors@, installer@, game_version@),
{
    let mut m = chars_of(loader);
    append_str(&mut m, " install failed.\nProcessors: ");
    append_str(&mut m, processors);
    append_str(&mut m, "\nInstaller: ");
    append_str(&mut m, installer);
    append_str(&mut m, "\nEnsure Java runs headless, the vanilla ");
    append_str(&mut m, game_version);
    append_str(&mut m, " jar is present, and the instance folder is writable.");
    AppError::msg(string_of(&m))
}

/// The lockfile entry recording a downloaded installer.
pub fn installer_lock_entry(path: &str, loader: &str) -> (e: crate::resolve::LockfileEntry)
    ensures
        e.path@ == path@,
        e.source@ == loader@,
        e.sha1 is None,
        e.sha512 is None,
        e.project_id is None,
        e.version_id is None,
        e.filename is None,
        !e.pinned,
        e.enabled,
{
    let mut e = crate::resolve::LockfileEntry::default();
    e.path = lit(path);
    e.source = lit(loader);
    e
}

/// A folder of a game's `versions` folder: its name, and whether it holds
/// `{name}.json` as a file.
pub struct VersionDirScan {
    pub name: String,
    pub has_json: bool,
}

/// Folder `i` is the first one other than the vanilla version's that holds
/// its version document.
pub open spec fn first_loader_dir(dirs: Seq<VersionDirScan>, vanilla: Seq<char>, i: int) -> bool {
    &&& 0 <= i < dirs.len()
    &&& dirs[i].name@ != vanilla
    &&& dirs[i].has_json
    &&& forall|j: int| 0 <= j < i ==> (#[trigger] dirs[j]).name@ == vanilla || !dirs[j].has_json
}

/// The version document the official installer wrote: that of the first
/// folder of `versions` (in the order scanned) other than the vanilla one;
/// refused when there is none.
pub fn loader_version_json(game_dir: &str, vanilla: &str, dirs: &Vec<VersionDirScan>) -> (r: AppResult<String>)
    ensures
        (exists|i: int| first_loader_dir(dirs@, vanilla@, i)) ==> (r matches Ok(p) && exists|i: int|
            first_loader_dir(dirs@, vanilla@, i) && p@ == crate::launch::version_json_of(
                game_dir@,
                dirs@[i].name@,
            )),
        !(exists|i: int| first_loader_dir(dirs@, vanilla@, i)) ==> (r matches Err(e) && e.message@
            == "Installer did not write a loader version profile"@),
{
    let mut i: usize = 0;
    while i < dirs.len()
        invariant
            i <= dirs.len(),
            forall|j: int| 0 <= j < i ==> (#[trigger] dirs@[j]).name@ == vanilla@ || !dirs@[j].has_json,
        decreases dirs.len() - i,
    {
        if !str_eq(dirs[i].name.as_str(), vanilla) && dirs[i].has_json {
            assert(first_loader_dir(dirs@, vanilla@, i as int));
            let name = dirs[i].name.as_str();
            let versions = path_join_str(&chars_of(game_dir), "versions");
            let dir = path_join_str(&versions, name);
            let mut file = chars_of(name);
            append_str(&mut file, ".json");
            return Ok(string_of(&path_join(&dir, &file)));
        }
        i += 1;
    }
    assert(!exists|k: int| first_loader_dir(dirs@, vanilla@, k));
    Err(AppError::lit("Installer did not write a loader version profile"))
}

} // verus!
