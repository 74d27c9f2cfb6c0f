//! Mods of an instance: installed records, jars found on disk, the
//! dependency walk of an install, and update checks.
use vstd::prelude::*;
use crate::catalog::{CatalogDependency, CatalogVersion, svs};
use crate::error::{AppError, AppResult};
use crate::instances::Instance;
use crate::paths::{join, path_join_str};
use crate::resolve::{
    Assoc, Conflict, DepKind, DepRef, DepV, LockfileEntry, Package, Selection, assoc_put, assoc_set,
    lookup, pairs_view,
};
use crate::catalog::{CatalogFile, cache_key, file_cache_key, primary_choice, primary_file};
use crate::text::{
    append, append_str, chars_of, copy_opt, ends_with, has_prefix_str, has_suffix_str, lit,
    lower, oview, slice, starts_with, str_eq, string_of,
};

use crate::order::{
    ins, isort, lemma_chars_le_antisym, lemma_chars_le_total, lemma_chars_le_trans, lemma_isort,
    total_preorder,
};

verus! {

broadcast use vstd::string::group_string_axioms;

/// A mod recorded for an instance, or a jar found in its `mods` folder.
pub struct InstalledMod {
    pub id: String,
    pub instance_id: String,
    pub project_id: String,
    pub version_id: String,
    pub filename: String,
    pub source: String,
    pub sha512: Option<String>,
    pub sha1: Option<String>,
    pub pinned: bool,
    pub enabled: bool,
    pub channel: Option<String>,
    pub update_version_id: Option<String>,
    pub display_name: Option<String>,
    pub version_number: Option<String>,
    pub sort_order: i64,
    pub compat_status: Option<String>,
}

/// A request to install a catalog project into an instance.
pub struct InstallModRequest {
    pub instance_id: String,
    pub project_id: String,
    pub version_id: Option<String>,
    pub pin: Option<bool>,
    pub channel: Option<String>,
}

/// `{game_dir}/mods`.
pub fn mods_dir(instance: &Instance) -> (r: String)
    ensures
        r@ == join(instance.game_dir@, "mods"@),
{
    string_of(&path_join_str(&chars_of(instance.game_dir.as_str()), "mods"))
}

/// Jars dropped into `mods/` by hand are listed under `local:` ids.
pub open spec fn is_local(project_id: Seq<char>) -> bool {
    starts_with(project_id, "local:"@)
}

pub fn is_local_project(project_id: &str) -> (b: bool)
    ensures
        b == is_local(project_id@),
{
    has_prefix_str(&chars_of(project_id), "local:")
}

/// The jar a file in `mods/` stands for: `x.jar.disabled` is the disabled
/// `x.jar`, `x.jar` itself; other files are not mods.
pub open spec fn jar_of(name: Seq<char>) -> Option<Seq<char>> {
    if ends_with(name, ".jar.disabled"@) {
        Some(name.take(name.len() - ".jar.disabled"@.len()) + ".jar"@)
    } else if ends_with(name, ".jar"@) {
        Some(name)
    } else {
        None
    }
}

pub fn jar_filename(name: &str) -> (r: Option<String>)
    ensures
        oview(r) == jar_of(name@),
{
    let n = chars_of(name);
    if has_suffix_str(&n, ".jar.disabled") {
        let k = chars_of(".jar.disabled").len();
        let mut stem = slice(&n, 0, n.len() - k);
        append_str(&mut stem, ".jar");
        return Some(string_of(&stem));
    }
    if has_suffix_str(&n, ".jar") {
        return Some(lit(name));
    }
    None
}

/// The name shown for a jar: its file name without `.jar`.
pub open spec fn display_of(filename: Seq<char>) -> Seq<char> {
    if ends_with(filename, ".jar"@) {
        filename.take(filename.len() - ".jar"@.len())
    } else {
        filename
    }
}

pub fn display_from_filename(filename: &str) -> (r: String)
    ensures
        r@ == display_of(filename@),
{
    let n = chars_of(filename);
    if has_suffix_str(&n, ".jar") {
        let k = chars_of(".jar").len();
        string_of(&slice(&n, 0, n.len() - k))
    } else {
        lit(filename)
    }
}

/// What toggling a jar does: the file renamed from and to, if it exists.
pub open spec fn toggle_of(mods: Seq<char>, filename: Seq<char>, enabled: bool) -> (Seq<char>, Seq<char>) {
    let active = join(mods, filename);
    let disabled = join(mods, filename + ".disabled"@);
    if enabled {
        (disabled, active)
    } else {
        (active, disabled)
    }
}

/// The rename that enables (`x.jar.disabled` to `x.jar`) or disables a
/// jar; the caller renames when the source file exists.
pub fn toggle_jar(mods: &str, filename: &str, enabled: bool) -> (r: (String, String))
    ensures
        (r.0@, r.1@) == toggle_of(mods@, filename@, enabled),
{
    let m = chars_of(mods);
    let active = string_of(&crate::paths::path_join(&m, &chars_of(filename)));
    let mut d = chars_of(filename);
    append_str(&mut d, ".disabled");
    let disabled = string_of(&crate::paths::path_join(&m, &d));
    if enabled {
        (disabled, active)
    } else {
        (active, disabled)
    }
}

// ===========================================================================
// Listing with the jars on disk
// ===========================================================================

/// A jar found in `mods/` that no record names: listed under `local:` with
/// the given order.
pub open spec fn local_mod_ok(m: InstalledMod, instance_id: Seq<char>, filename: Seq<char>, enabled: bool, order: i64) -> bool {
    &&& m.id@ == "local:"@ + filename
    &&& m.instance_id@ == instance_id
    &&& m.project_id@ == "local:"@ + filename
    &&& m.version_id@ == Seq::<char>::empty()
    &&& m.filename@ == filename
    &&& m.source@ == "local"@
    &&& m.sha512 is None
    &&& m.sha1 is None
    &&& !m.pinned
    &&& m.enabled == enabled
    &&& m.channel is None
    &&& m.update_version_id is None
    &&& oview(m.display_name) == Some(display_of(filename))
    &&& m.version_number is None
    &&& m.sort_order == order
    &&& oview(m.compat_status) == Some("local"@)
}

fn local_mod(instance_id: &str, filename: &str, enabled: bool, order: i64) -> (m: InstalledMod)
    ensures
        local_mod_ok(m, instance_id@, filename@, enabled, order),
{
    let mut id = chars_of("local:");
    append_str(&mut id, filename);
    let id = string_of(&id);
    InstalledMod {
        id: id.clone(),
        instance_id: lit(instance_id),
        project_id: id,
        version_id: String::new(),
        filename: lit(filename),
        source: lit("local"),
        sha512: None,
        sha1: None,
        pinned: false,
        enabled,
        channel: None,
        update_version_id: None,
        display_name: Some(display_from_filename(filename)),
        version_number: None,
        sort_order: order,
        compat_status: Some(lit("local")),
    }
}

/// The largest order of a list, -1 for an empty one.
pub open spec fn max_order(ms: Seq<InstalledMod>) -> int
    decreases ms.len(),
{
    if ms.len() == 0 {
        -1
    } else if ms.len() == 1 {
        ms[0].sort_order as int
    } else {
        let m = max_order(ms.drop_last());
        if ms.last().sort_order > m {
            ms.last().sort_order as int
        } else {
            m
        }
    }
}

proof fn lemma_max_order_push(s: Seq<InstalledMod>, x: InstalledMod)
    ensures
        max_order(s.push(x)) == if s.len() == 0 {
            x.sort_order as int
        } else if x.sort_order > max_order(s) {
            x.sort_order as int
        } else {
            max_order(s)
        },
{
    assert(s.push(x).drop_last() =~= s);
}

proof fn lemma_max_order_update(s: Seq<InstalledMod>, i: int, m: InstalledMod)
    requires
        0 <= i < s.len(),
        m.sort_order == s[i].sort_order,
    ensures
        max_order(s.update(i, m)) == max_order(s),
    decreases s.len(),
{
    if s.len() > 1 {
        if i < s.len() - 1 {
            lemma_max_order_update(s.drop_last(), i, m);
            assert(s.update(i, m).drop_last() =~= s.drop_last().update(i, m));
        } else {
            assert(s.update(i, m).drop_last() =~= s.drop_last());
        }
    }
}

/// `ms[i]` is the first record of jar `f`.
pub open spec fn first_file_at(ms: Seq<InstalledMod>, f: Seq<char>, i: int) -> bool {
    0 <= i < ms.len() && ms[i].filename@ == f && forall|j: int| 0 <= j < i ==> ms[j].filename@ != f
}

/// One directory entry merged into the listing: a jar already listed gets
/// its enabled state from the file (`.disabled` or not); a new jar is
/// appended as a local mod ordered after all others; other files are
/// ignored.
pub open spec fn merged_ok(before: Seq<InstalledMod>, name: Seq<char>, instance_id: Seq<char>, after: Seq<InstalledMod>) -> bool {
    match jar_of(name) {
        None => after == before,
        Some(filename) => {
            let enabled = !ends_with(name, ".disabled"@);
            if exists|i: int| first_file_at(before, filename, i) {
                let i = choose|i: int| first_file_at(before, filename, i);
                &&& after.len() == before.len()
                &&& (forall|j: int| 0 <= j < before.len() && j != i ==> after[j] == before[j])
                &&& after[i] == InstalledMod { enabled, ..before[i] }
            } else {
                &&& after.len() == before.len() + 1
                &&& after.take(before.len() as int) == before
                &&& local_mod_ok(after.last(), instance_id, filename, enabled, (max_order(before) + 1) as i64)
            }
        },
    }
}

/// Merges one name of the `mods` folder into the listing (see
/// [`merged_ok`]). The orders must leave room for one more.
pub fn merge_entry(listed: &mut Vec<InstalledMod>, name: &str, instance_id: &str)
    requires
        max_order(old(listed)@) < i64::MAX,
    ensures
        merged_ok(old(listed)@, name@, instance_id@, final(listed)@),
        max_order(final(listed)@) <= max_order(old(listed)@) + 1,
{
    let filename = match jar_filename(name) {
        Some(f) => f,
        None => {
            return;
        },
    };
    let enabled = !has_suffix_str(&chars_of(name), ".disabled");
    let ghost before = listed@;
    let mut i: usize = 0;
    while i < listed.len()
        invariant
            i <= listed.len(),
            listed@ == before,
            before == old(listed)@,
            jar_of(name@) == Some(filename@),
            enabled == !ends_with(name@, ".disabled"@),
            forall|j: int| 0 <= j < i ==> before[j].filename@ != filename@,
        decreases listed.len() - i,
    {
        if str_eq(listed[i].filename.as_str(), filename.as_str()) {
            assert(first_file_at(before, filename@, i as int));
            let ghost c = choose|c: int| first_file_at(before, filename@, c);
            assert(c == i) by {
                if c > i {
                    assert(before[i as int].filename@ != filename@);
                }
            }
            let mut m = listed.remove(i);
            m.enabled = enabled;
            let ghost mv = m;
            listed.insert(i, m);
            assert(listed@ =~= before.update(i as int, mv));
            assert(mv == InstalledMod { enabled, ..before[i as int] });
            proof {
                lemma_max_order_update(before, i as int, mv);
            }
            return;
        }
        i += 1;
    }
    let mut max: i64 = -1;
    let mut k: usize = 0;
    assert(before.take(0) =~= Seq::<InstalledMod>::empty());
    while k < listed.len()
        invariant
            k <= listed.len(),
            listed@ == before,
            max == max_order(before.take(k as int)),
        decreases listed.len() - k,
    {
        assert(before.take(k + 1).drop_last() =~= before.take(k as int));
        if k == 0 || listed[k].sort_order > max {
            max = listed[k].sort_order;
        }
        k += 1;
    }
    assert(before.take(listed.len() as int) =~= before);
    let m = local_mod(instance_id, filename.as_str(), enabled, max + 1);
    let ghost mv = m;
    listed.push(m);
    assert(listed@.take(before.len() as int) =~= before);
    proof {
        lemma_max_order_push(before, mv);
    }
}

// ===========================================================================
// Listing order
// ===========================================================================

/// Lexicographic order of texts by character.
pub open spec fn chars_le(a: Seq<char>, b: Seq<char>) -> bool
    decreases a.len(),
{
    if a.len() == 0 {
        true
    } else if b.len() == 0 {
        false
    } else if a[0] != b[0] {
        (a[0] as u32) < (b[0] as u32)
    } else {
        chars_le(a.drop_first(), b.drop_first())
    }
}

/// The listing order: by `sort_order`, then by file name ignoring ASCII case.
pub open spec fn mod_le(a: InstalledMod, b: InstalledMod) -> bool {
    a.sort_order < b.sort_order || (a.sort_order == b.sort_order && chars_le(
        lower(a.filename@),
        lower(b.filename@),
    ))
}

/// `x` inserted into `s` after every trailing element that sorts after it.
pub open spec fn sorted_insert(s: Seq<InstalledMod>, x: InstalledMod) -> Seq<InstalledMod>
    decreases s.len(),
{
    if s.len() == 0 {
        seq![x]
    } else if mod_le(s.last(), x) {
        s.push(x)
    } else {
        sorted_insert(s.drop_last(), x).push(s.last())
    }
}

/// The records sorted by [`mod_le`], equal ones keeping their order (a
/// stable sort, as insertion sort).
pub open spec fn mod_sort(s: Seq<InstalledMod>) -> Seq<InstalledMod>
    decreases s.len(),
{
    if s.len() == 0 {
        Seq::empty()
    } else {
        sorted_insert(mod_sort(s.drop_last()), s.last())
    }
}

pub fn chars_le_exec(a: &Vec<char>, b: &Vec<char>) -> (r: bool)
    ensures
        r == chars_le(a@, b@),
{
    let mut i: usize = 0;
    assert(a@.skip(0) =~= a@);
    assert(b@.skip(0) =~= b@);
    while i < a.len()
        invariant
            i <= a.len(),
            chars_le(a@, b@) == chars_le(a@.skip(i as int), b@.skip(i as int)),
            i <= b.len(),
        decreases a.len() - i,
    {
        if i >= b.len() {
            return false;
        }
        assert(a@.skip(i as int).drop_first() =~= a@.skip(i + 1));
        assert(b@.skip(i as int).drop_first() =~= b@.skip(i + 1));
        if a[i] != b[i] {
            return (a[i] as u32) < (b[i] as u32);
        }
        i += 1;
    }
    true
}

fn mod_le_exec(a: &InstalledMod, b: &InstalledMod) -> (r: bool)
    ensures
        r == mod_le(*a, *b),
{
    if a.sort_order < b.sort_order {
        return true;
    }
    if a.sort_order > b.sort_order {
        return false;
    }
    let la = crate::text::to_lower(&chars_of(a.filename.as_str()));
    let lb = crate::text::to_lower(&chars_of(b.filename.as_str()));
    chars_le_exec(&la, &lb)
}

fn insert_sorted(v: &mut Vec<InstalledMod>, x: InstalledMod)
    ensures
        final(v)@ == sorted_insert(old(v)@, x),
{
    let ghost s = v@;
    let mut j = v.len();
    assert(s.take(j as int) =~= s);
    assert(s.skip(j as int) =~= Seq::<InstalledMod>::empty());
    while j > 0 && !mod_le_exec(&v[j - 1], &x)
        invariant
            j <= v.len(),
            v@ == s,
            s == old(v)@,
            sorted_insert(s, x) == sorted_insert(s.take(j as int), x) + s.skip(j as int),
        decreases j,
    {
        assert(s.take(j as int).drop_last() =~= s.take(j - 1));
        assert(s.take(j as int).last() == s[j - 1]);
        assert(s.skip(j - 1) =~= seq![s[j - 1]] + s.skip(j as int));
        assert(sorted_insert(s.take(j as int), x) == sorted_insert(s.take(j - 1), x).push(s[j - 1]));
        assert(sorted_insert(s.take(j - 1), x).push(s[j - 1]) + s.skip(j as int) =~= sorted_insert(
            s.take(j - 1),
            x,
        ) + s.skip(j - 1));
        j -= 1;
    }
    if j > 0 {
        assert(s.take(j as int).last() == s[j - 1]);
        assert(sorted_insert(s.take(j as int), x) == s.take(j as int).push(x));
    } else {
        assert(s.take(0) =~= Seq::<InstalledMod>::empty());
    }
    let ghost xv = x;
    v.insert(j, x);
    assert(v@ =~= s.take(j as int).push(xv) + s.skip(j as int));
}

/// Sorts a listing (see [`mod_sort`]).
pub fn sort_mods(v: Vec<InstalledMod>) -> (r: Vec<InstalledMod>)
    ensures
        r@ == mod_sort(v@),
{
    let ghost orig = v@;
    assert(orig.len() == v.len());
    let mut rest = v;
    let mut out: Vec<InstalledMod> = Vec::new();
    let mut k: usize = 0;
    assert(orig.skip(0) =~= orig);
    while rest.len() > 0
        invariant
            k <= orig.len(),
            orig.len() <= usize::MAX,
            rest@ == orig.skip(k as int),
            out@ == mod_sort(orig.take(k as int)),
        decreases rest.len(),
    {
        let x = rest.remove(0);
        assert(orig.take(k + 1).drop_last() =~= orig.take(k as int));
        assert(orig.take(k + 1).last() == x);
        insert_sorted(&mut out, x);
        assert(rest@ =~= orig.skip(k + 1));
        k += 1;
    }
    assert(orig.take(k as int) =~= orig);
    out
}

/// The recorded mods of an instance merged with the jars of its `mods`
/// folder, name by name (see [`merged_ok`]), then sorted (see
/// [`mod_sort`]). The orders must leave room for one more per name.
pub fn list_installed_with_disk(listed: Vec<InstalledMod>, names: &Vec<String>, instance: &Instance) -> (r: Vec<InstalledMod>)
    requires
        max_order(listed@) + names.len() < i64::MAX,
    ensures
        exists|merged: Seq<InstalledMod>| #[trigger] mod_sort(merged) == r@ && merged_all(listed@, names@, instance.id@, merged),
{
    let mut listed = listed;
    let ghost start = listed@;
    let ghost steps: Seq<Seq<InstalledMod>> = seq![start];
    let mut i: usize = 0;
    while i < names.len()
        invariant
            i <= names.len(),
            max_order(start) + names.len() < i64::MAX,
            max_order(listed@) <= max_order(start) + i,
            steps.len() == i + 1,
            steps[0] == start,
            steps[i as int] == listed@,
            forall|k: int| 0 <= k < i ==> merged_ok(#[trigger] steps[k], names@[k]@, instance.id@, steps[k + 1]),
        decreases names.len() - i,
    {
        merge_entry(&mut listed, names[i].as_str(), instance.id.as_str());
        proof {
            steps = steps.push(listed@);
        }
        i += 1;
    }
    let ghost merged = listed@;
    let r = sort_mods(listed);
    assert(merged_all(start, names@, instance.id@, merged)) by {
        assert(steps.last() == merged);
    }
    r
}

/// `after` is the listing `before` merged with each of `names` in turn.
pub open spec fn merged_all(before: Seq<InstalledMod>, names: Seq<String>, instance_id: Seq<char>, after: Seq<InstalledMod>) -> bool {
    exists|steps: Seq<Seq<InstalledMod>>|
        steps.len() == names.len() + 1 && steps[0] == before && steps.last() == after && forall|k: int|
            0 <= k < names.len() ==> merged_ok(#[trigger] steps[k], names[k]@, instance_id, steps[k + 1])
}

// ===========================================================================
// Update checks
// ===========================================================================

/// Whether checking a mod for updates asks the catalog: not for local
/// jars, pinned mods, or on a vanilla instance.
pub open spec fn needs_lookup(m: InstalledMod, loader: Seq<char>) -> bool {
    !(m.source@ == "local"@ || is_local(m.project_id@)) && !m.pinned && loader != "vanilla"@
}

pub fn needs_version_lookup(m: &InstalledMod, loader: &str) -> (b: bool)
    ensures
        b == needs_lookup(*m, loader@),
{
    !(str_eq(m.source.as_str(), "local") || is_local_project(m.project_id.as_str())) && !m.pinned
        && !str_eq(loader, "vanilla")
}

/// The status an update check gives a mod, and its pending update:
/// `local`, `pinned`, `incompatible` (vanilla instance, or nothing offered
/// for the instance), `update` when the newest offered version differs from
/// the installed one, else `ok`; a mod whose installed version is not
/// offered and that has no update is `incompatible`.
pub open spec fn update_check(m: InstalledMod, loader: Seq<char>, offered: Seq<CatalogVersion>) -> (Seq<char>, Option<Seq<char>>) {
    if m.source@ == "local"@ || is_local(m.project_id@) {
        ("local"@, oview(m.update_version_id))
    } else if m.pinned {
        ("pinned"@, oview(m.update_version_id))
    } else if loader == "vanilla"@ {
        ("incompatible"@, oview(m.update_version_id))
    } else if offered.len() == 0 {
        ("incompatible"@, oview(m.update_version_id))
    } else {
        let current = exists|i: int| 0 <= i < offered.len() && offered[i].id@ == m.version_id@;
        let (status, update) = if offered[0].id@ != m.version_id@ {
            ("update"@, Some(offered[0].id@))
        } else {
            ("ok"@, oview(m.update_version_id))
        };
        if !current && update is None {
            ("incompatible"@, update)
        } else {
            (status, update)
        }
    }
}

/// Checks one mod against the versions offered for the instance's loader
/// and game version (see [`update_check`]); only the status and the
/// pending update change.
pub fn check_update(m: &mut InstalledMod, loader: &str, offered: &Vec<CatalogVersion>)
    ensures
        oview(final(m).compat_status) == Some(update_check(*old(m), loader@, offered@).0),
        oview(final(m).update_version_id) == update_check(*old(m), loader@, offered@).1,
        *final(m) == (InstalledMod {
            compat_status: final(m).compat_status,
            update_version_id: final(m).update_version_id,
            ..*old(m)
        }),
{
    if str_eq(m.source.as_str(), "local") || is_local_project(m.project_id.as_str()) {
        m.compat_status = Some(lit("local"));
        return;
    }
    if m.pinned {
        m.compat_status = Some(lit("pinned"));
        return;
    }
    if str_eq(loader, "vanilla") || offered.len() == 0 {
        m.compat_status = Some(lit("incompatible"));
        return;
    }
    let mut current = false;
    let mut i: usize = 0;
    while i < offered.len()
        invariant
            i <= offered.len(),
            current == exists|j: int| 0 <= j < i && offered@[j].id@ == m.version_id@,
        decreases offered.len() - i,
    {
        if str_eq(offered[i].id.as_str(), m.version_id.as_str()) {
            current = true;
        }
        i += 1;
    }
    if !str_eq(offered[0].id.as_str(), m.version_id.as_str()) {
        m.update_version_id = Some(offered[0].id.clone());
        m.compat_status = Some(lit("update"));
    } else {
        m.compat_status = Some(lit("ok"));
    }
    if !current && m.update_version_id.is_none() {
        m.compat_status = Some(lit("incompatible"));
    }
}

// ===========================================================================
// Installing a catalog mod
// ===========================================================================

/// Mods need a modded instance.
pub fn mod_install_allowed(instance: &Instance) -> (r: AppResult<()>)
    ensures
        r is Ok <==> instance.loader@ != "vanilla"@,
        r matches Err(e) ==> e.message@
            == "Install a Fabric, Quilt, Forge, or NeoForge instance before adding mods"@,
{
    if str_eq(instance.loader.as_str(), "vanilla") {
        return Err(AppError::lit("Install a Fabric, Quilt, Forge, or NeoForge instance before adding mods"));
    }
    Ok(())
}

/// The newest version offered (the first), refused with `message` when
/// none is.
pub fn first_offered(offered: Vec<CatalogVersion>, message: &str) -> (r: AppResult<CatalogVersion>)
    ensures
        offered.len() > 0 ==> r == Ok::<CatalogVersion, AppError>(offered@[0]),
        offered.len() == 0 ==> (r matches Err(e) && e.message@ == message@),
{
    let mut offered = offered;
    if offered.len() == 0 {
        return Err(AppError::msg(lit(message)));
    }
    Ok(offered.remove(0))
}

/// The message when no version of a required dependency is offered.
pub fn missing_dependency(project_id: &str) -> (e: AppError)
    ensures
        e.message@ == "Could not resolve required dependency "@ + project_id@,
{
    let mut m = chars_of("Could not resolve required dependency ");
    append_str(&mut m, project_id);
    AppError::msg(string_of(&m))
}

fn copy_deps(v: &Vec<CatalogDependency>) -> (r: Vec<CatalogDependency>)
    ensures
        r@ == v@,
{
    let mut deps: Vec<CatalogDependency> = Vec::new();
    let mut k: usize = 0;
    while k < v.len()
        invariant
            k <= v.len(),
            deps@ == v@.take(k as int),
        decreases v.len() - k,
    {
        let d = &v[k];
        deps.push(
            CatalogDependency {
                project_id: copy_opt(&d.project_id),
                version_id: copy_opt(&d.version_id),
                dependency_type: d.dependency_type.clone(),
            },
        );
        k += 1;
        assert(deps@ =~= v@.take(k as int));
    }
    assert(v@.take(v.len() as int) =~= v@);
    deps
}

/// What the dependency walk asks to fetch next.
pub enum DepRequest {
    /// A dependency pinned to this version id.
    Version(String),
    /// The newest offered version of this project.
    Latest(String),
}

/// Whether the project `pid` has a fetched version.
pub open spec fn known(versions: Seq<CatalogVersion>, pid: Seq<char>) -> bool {
    exists|i: int| 0 <= i < versions.len() && versions[i].project_id@ == pid
}

/// A dependency the walk fetches: required, naming a project not yet known.
pub open spec fn wants(d: CatalogDependency, versions: Seq<CatalogVersion>) -> bool {
    DepKind::parse_spec(d.dependency_type@) == DepKind::Required && d.project_id is Some && !known(
        versions,
        d.project_id->Some_0@,
    )
}

/// The walk state: fetched versions (one per project), the dependency
/// lists still to be read (the last is read next), the list being read and
/// the position of its next dependency.
pub ghost struct WalkV {
    pub versions: Seq<CatalogVersion>,
    pub queue: Seq<Seq<CatalogDependency>>,
    pub current: Option<Seq<CatalogDependency>>,
    pub next: nat,
}

/// Runs the walk up to its next fetch: the dependencies of the current
/// version are read in order, skipping those not wanted; when they are all
/// read, the last queued version becomes current. The result is the state
/// at the dependency to fetch, or `None` when nothing is left.
pub open spec fn walk_next(st: WalkV) -> (WalkV, bool)
    decreases st.queue.len(), (if st.current is Some {
        1nat
    } else {
        0nat
    }), (if st.current is Some && st.next < st.current->Some_0.len() {
        (st.current->Some_0.len() - st.next) as nat
    } else {
        0nat
    }),
{
    match st.current {
        Some(c) => if st.next < c.len() {
            if wants(c[st.next as int], st.versions) {
                (st, true)
            } else {
                walk_next(WalkV { next: st.next + 1, ..st })
            }
        } else {
            walk_next(WalkV { current: None, next: 0, ..st })
        },
        None => if st.queue.len() == 0 {
            (st, false)
        } else {
            walk_next(WalkV { queue: st.queue.drop_last(), current: Some(st.queue.last()), next: 0, ..st })
        },
    }
}

/// `versions` with `v` recorded under its project (replacing the version
/// recorded for that project, if any).
pub open spec fn record(versions: Seq<CatalogVersion>, v: CatalogVersion) -> Seq<CatalogVersion> {
    if exists|i: int| first_project_at(versions, v.project_id@, i) {
        versions.update(choose|i: int| first_project_at(versions, v.project_id@, i), v)
    } else {
        versions.push(v)
    }
}

pub open spec fn first_project_at(versions: Seq<CatalogVersion>, pid: Seq<char>, i: int) -> bool {
    0 <= i < versions.len() && versions[i].project_id@ == pid && forall|j: int|
        0 <= j < i ==> versions[j].project_id@ != pid
}

/// The dependency walk of a mod install: starting from the chosen version,
/// every required dependency not yet fetched is fetched (by its version id
/// when it names one, else the newest offered), recorded, and walked in
/// turn, depth first.
pub struct DepWalk {
    versions: Vec<CatalogVersion>,
    queue: Vec<Vec<CatalogDependency>>,
    current: Option<Vec<CatalogDependency>>,
    next: usize,
}

pub open spec fn deps_views(q: Seq<Vec<CatalogDependency>>) -> Seq<Seq<CatalogDependency>> {
    q.map_values(|d: Vec<CatalogDependency>| d@)
}

pub open spec fn current_view(c: Option<Vec<CatalogDependency>>) -> Option<Seq<CatalogDependency>> {
    match c {
        Some(d) => Some(d@),
        None => None,
    }
}

fn position_of(versions: &Vec<CatalogVersion>, pid: &str) -> (r: Option<usize>)
    ensures
        match r {
            Some(i) => first_project_at(versions@, pid@, i as int),
            None => !known(versions@, pid@),
        },
{
    let mut i: usize = 0;
    while i < versions.len()
        invariant
            i <= versions.len(),
            forall|j: int| 0 <= j < i ==> versions@[j].project_id@ != pid@,
        decreases versions.len() - i,
    {
        if str_eq(versions[i].project_id.as_str(), pid) {
            return Some(i);
        }
        i += 1;
    }
    None
}

impl DepWalk {
    pub closed spec fn state(&self) -> WalkV {
        WalkV {
            versions: self.versions@,
            queue: deps_views(self.queue@),
            current: current_view(self.current),
            next: self.next as nat,
        }
    }

    /// A walk from the chosen root version.
    pub fn new(root: CatalogVersion) -> (w: DepWalk)
        ensures
            w.state() == (WalkV {
                versions: seq![root],
                queue: seq![root.dependencies@],
                current: None,
                next: 0,
            }),
    {
        let deps = copy_deps(&root.dependencies);
        let ghost rv = root;
        let mut versions: Vec<CatalogVersion> = Vec::new();
        versions.push(root);
        let mut queue: Vec<Vec<CatalogDependency>> = Vec::new();
        queue.push(deps);
        let w = DepWalk { versions, queue, current: None, next: 0 };
        assert(w.state().versions =~= seq![rv]);
        assert(w.state().queue =~= seq![rv.dependencies@]);
        w
    }

    /// The next fetch the walk needs, or `None` when it is complete (see
    /// [`walk_next`]).
    pub fn next_request(&mut self) -> (r: Option<DepRequest>)
        ensures
            final(self).state() == walk_next(old(self).state()).0,
            walk_next(old(self).state()).1 <==> r is Some,
            r is Some ==> ({
                let st = final(self).state();
                let d = st.current->Some_0[st.next as int];
                &&& st.current is Some
                &&& st.next < st.current->Some_0.len()
                &&& wants(d, st.versions)
                &&& match r {
                    Some(DepRequest::Version(v)) => oview(d.version_id) == Some(v@),
                    Some(DepRequest::Latest(p)) => d.version_id is None && oview(d.project_id) == Some(p@),
                    None => false,
                }
            }),
    {
        loop
            invariant
                walk_next(self.state()) == walk_next(old(self).state()),
            decreases self.queue.len(), (if self.current is Some {
                1nat
            } else {
                0nat
            }), (if self.current is Some && self.next < self.current->Some_0.len() {
                (self.current->Some_0.len() - self.next) as nat
            } else {
                0nat
            }),
        {
            let ghost st = self.state();
            match &self.current {
                Some(c) => {
                    if self.next < c.len() {
                        let d = &c[self.next];
                        let required = match DepKind::parse(d.dependency_type.as_str()) {
                            DepKind::Required => true,
                            _ => false,
                        };
                        let wanted = match &d.project_id {
                            Some(pid) => required && position_of(&self.versions, pid.as_str()).is_none(),
                            None => false,
                        };
                        assert(wanted == wants(c@[self.next as int], self.versions@));
                        if wanted {
                            let req = match &d.version_id {
                                Some(v) => DepRequest::Version(v.clone()),
                                None => DepRequest::Latest(
                                    match &d.project_id {
                                        Some(p) => p.clone(),
                                        None => String::new(),
                                    },
                                ),
                            };
                            return Some(req);
                        }
                        self.next = self.next + 1;
                        assert(self.state() == (WalkV { next: st.next + 1, ..st }));
                    } else {
                        self.current = None;
                        self.next = 0;
                        assert(self.state() == (WalkV { current: None, next: 0, ..st }));
                    }
                },
                None => {
                    if self.queue.len() == 0 {
                        return None;
                    }
                    let last = self.queue.pop();
                    self.current = last;
                    self.next = 0;
                    assert(deps_views(self.queue@) =~= st.queue.drop_last());
                    assert(self.state() == (WalkV {
                        queue: st.queue.drop_last(),
                        current: Some(st.queue.last()),
                        next: 0,
                        ..st
                    }));
                },
            }
        }
    }

    /// Records the version fetched for the pending request and queues its
    /// dependencies to be read.
    pub fn deliver(&mut self, fetched: CatalogVersion)
        requires
            old(self).state().current is Some,
            old(self).state().next < usize::MAX,
        ensures
            final(self).state() == (WalkV {
                versions: record(old(self).state().versions, fetched),
                queue: old(self).state().queue.push(fetched.dependencies@),
                current: old(self).state().current,
                next: old(self).state().next + 1,
            }),
    {
        let deps = copy_deps(&fetched.dependencies);
        let ghost before = self.versions@;
        let ghost q0 = self.queue@;
        let ghost fv = fetched;
        match position_of(&self.versions, fetched.project_id.as_str()) {
            Some(i) => {
                let ghost c = choose|c: int| first_project_at(before, fv.project_id@, c);
                assert(c == i) by {
                    if c > i {
                        assert(before[i as int].project_id@ == fv.project_id@);
                    }
                }
                self.versions.set(i, fetched);
            },
            None => {
                assert(!exists|c: int| first_project_at(before, fv.project_id@, c));
                self.versions.push(fetched);
            },
        }
        self.queue.push(deps);
        self.next = self.next + 1;
        assert(deps_views(self.queue@) =~= deps_views(q0).push(fv.dependencies@));
    }

    /// The versions fetched, one per project, ending the walk.
    pub fn into_versions(self) -> (r: Vec<CatalogVersion>)
        ensures
            r@ == self.state().versions,
    {
        self.versions
    }
}

/// The dependency edges a version gives the resolver: each dependency that
/// names a project, with its version and kind.
pub open spec fn dep_refs(ds: Seq<CatalogDependency>) -> Seq<DepV>
    decreases ds.len(),
{
    if ds.len() == 0 {
        Seq::empty()
    } else {
        dep_refs(ds.drop_last()) + match ds.last().project_id {
            Some(p) => seq![
                DepV {
                    pid: p@,
                    vid: oview(ds.last().version_id),
                    kind: DepKind::parse_spec(ds.last().dependency_type@),
                },
            ],
            None => Seq::empty(),
        }
    }
}

fn dep_refs_of(ds: &Vec<CatalogDependency>) -> (r: Vec<DepRef>)
    ensures
        r@.map_values(|d: DepRef| d@) == dep_refs(ds@),
{
    let mut r: Vec<DepRef> = Vec::new();
    let mut i: usize = 0;
    assert(r@.map_values(|d: DepRef| d@) =~= dep_refs(ds@.take(0)));
    while i < ds.len()
        invariant
            i <= ds.len(),
            r@.map_values(|d: DepRef| d@) == dep_refs(ds@.take(i as int)),
        decreases ds.len() - i,
    {
        assert(ds@.take(i + 1).drop_last() =~= ds@.take(i as int));
        assert(ds@.take(i + 1).last() == ds@[i as int]);
        let d = &ds[i];
        let ghost before = r@;
        match &d.project_id {
            Some(p) => {
                let e = DepRef {
                    project_id: p.clone(),
                    version_id: copy_opt(&d.version_id),
                    kind: DepKind::parse(d.dependency_type.as_str()),
                };
                let ghost ev = e@;
                r.push(e);
                assert(r@.map_values(|d: DepRef| d@) =~= before.map_values(|d: DepRef| d@).push(ev));
            },
            None => {},
        }
        i += 1;
    }
    assert(ds@.take(ds.len() as int) =~= ds@);
    r
}

/// Each version's project and id.
pub open spec fn latest_pairs(vs: Seq<CatalogVersion>) -> Assoc
    decreases vs.len(),
{
    if vs.len() == 0 {
        Seq::empty()
    } else {
        latest_pairs(vs.drop_last()).push((vs.last().project_id@, vs.last().id@))
    }
}

/// The packages and newest-version table the resolver gets from the
/// fetched versions: one package per version (its project, id, name and
/// edges), and each project's fetched version as its newest.
pub fn packages_of(versions: &Vec<CatalogVersion>) -> (r: (Vec<Package>, Vec<(String, String)>))
    ensures
        r.0.len() == versions.len(),
        forall|i: int|
            0 <= i < versions.len() ==> {
                &&& (#[trigger] r.0@[i]).project_id@ == versions@[i].project_id@
                &&& r.0@[i].version_id@ == versions@[i].id@
                &&& r.0@[i].name@ == versions@[i].name@
                &&& r.0@[i].deps@.map_values(|d: DepRef| d@) == dep_refs(versions@[i].dependencies@)
            },
        pairs_view(r.1@) == latest_pairs(versions@),
{
    let mut packages: Vec<Package> = Vec::new();
    let mut latest: Vec<(String, String)> = Vec::new();
    let mut i: usize = 0;
    while i < versions.len()
        invariant
            i <= versions.len(),
            packages.len() == i,
            forall|k: int|
                0 <= k < i ==> {
                    &&& (#[trigger] packages@[k]).project_id@ == versions@[k].project_id@
                    &&& packages@[k].version_id@ == versions@[k].id@
                    &&& packages@[k].name@ == versions@[k].name@
                    &&& packages@[k].deps@.map_values(|d: DepRef| d@) == dep_refs(versions@[k].dependencies@)
                },
            pairs_view(latest@) == latest_pairs(versions@.take(i as int)),
        decreases versions.len() - i,
    {
        let v = &versions[i];
        packages.push(
            Package {
                project_id: v.project_id.clone(),
                version_id: v.id.clone(),
                name: v.name.clone(),
                deps: dep_refs_of(&v.dependencies),
            },
        );
        latest.push((v.project_id.clone(), v.id.clone()));
        assert(versions@.take(i + 1).drop_last() =~= versions@.take(i as int));
        assert(pairs_view(latest@) =~= latest_pairs(versions@.take(i + 1)));
        i += 1;
    }
    assert(versions@.take(versions.len() as int) =~= versions@);
    (packages, latest)
}

/// The pins of an install: each pinned installed mod's version (a later
/// record of a project replacing an earlier one), then the chosen version
/// when the request pins it.
pub open spec fn pins_spec(existing: Seq<InstalledMod>, root_pid: Seq<char>, root_vid: Seq<char>, pin_root: bool) -> Assoc {
    let base = pinned_fold(existing);
    if pin_root {
        assoc_set(base, root_pid, root_vid)
    } else {
        base
    }
}

pub open spec fn pinned_fold(existing: Seq<InstalledMod>) -> Assoc
    decreases existing.len(),
{
    if existing.len() == 0 {
        Seq::empty()
    } else {
        let prev = pinned_fold(existing.drop_last());
        if existing.last().pinned {
            assoc_set(prev, existing.last().project_id@, existing.last().version_id@)
        } else {
            prev
        }
    }
}

pub fn pins_of(existing: &Vec<InstalledMod>, root_pid: &str, root_vid: &str, pin_root: bool) -> (r: Vec<(String, String)>)
    ensures
        pairs_view(r@) == pins_spec(existing@, root_pid@, root_vid@, pin_root),
{
    let mut pins: Vec<(String, String)> = Vec::new();
    let mut i: usize = 0;
    assert(pairs_view(pins@) =~= pinned_fold(existing@.take(0)));
    while i < existing.len()
        invariant
            i <= existing.len(),
            pairs_view(pins@) == pinned_fold(existing@.take(i as int)),
        decreases existing.len() - i,
    {
        assert(existing@.take(i + 1).drop_last() =~= existing@.take(i as int));
        assert(existing@.take(i + 1).last() == existing@[i as int]);
        if existing[i].pinned {
            assoc_put(&mut pins, existing[i].project_id.as_str(), existing[i].version_id.as_str());
        }
        i += 1;
    }
    assert(existing@.take(existing.len() as int) =~= existing@);
    if pin_root {
        assoc_put(&mut pins, root_pid, root_vid);
    }
    pins
}

/// `{project} ({reason})` for each conflict, joined with `; `.
pub open spec fn conflict_list(cs: Seq<Conflict>) -> Seq<char>
    decreases cs.len(),
{
    if cs.len() == 0 {
        Seq::empty()
    } else if cs.len() == 1 {
        cs[0].project_id@ + " ("@ + cs[0].reason@ + ")"@
    } else {
        conflict_list(cs.drop_last()) + "; "@ + cs.last().project_id@ + " ("@ + cs.last().reason@
            + ")"@
    }
}

/// The error an install with conflicts ends with.
pub fn conflict_error(conflicts: &Vec<Conflict>) -> (e: AppError)
    ensures
        e.message@ == "Resolve conflict: "@ + conflict_list(conflicts@),
{
    let mut m = chars_of("Resolve conflict: ");
    let mut i: usize = 0;
    let ghost start = m@;
    while i < conflicts.len()
        invariant
            i <= conflicts.len(),
            start == "Resolve conflict: "@,
            m@ == start + conflict_list(conflicts@.take(i as int)),
        decreases conflicts.len() - i,
    {
        assert(conflicts@.take(i + 1).drop_last() =~= conflicts@.take(i as int));
        if i > 0 {
            append_str(&mut m, "; ");
        }
        append_str(&mut m, conflicts[i].project_id.as_str());
        append_str(&mut m, " (");
        append_str(&mut m, conflicts[i].reason.as_str());
        append_str(&mut m, ")");
        i += 1;
        proof {
            if i == 1 {
                assert(conflicts@.take(1)[0] == conflicts@[0]);
            }
        }
        assert(m@ =~= start + conflict_list(conflicts@.take(i as int)));
    }
    assert(conflicts@.take(conflicts.len() as int) =~= conflicts@);
    AppError::msg(string_of(&m))
}

/// A file an install fetches and records for a resolved project.
pub struct ModFetch {
    pub url: String,
    pub cached: String,
    pub dest: String,
    pub sha1: Option<String>,
    pub sha512: Option<String>,
    pub pinned: bool,
    pub display: String,
    pub version_number: Option<String>,
    pub lock: LockfileEntry,
}

/// The name recorded for an installed version: its name, else its jar's name.
pub open spec fn display_for(name: Seq<char>, filename: Seq<char>) -> Seq<char> {
    if name.len() == 0 {
        display_of(filename)
    } else {
        name
    }
}

/// What installing version `v` of project `pid` with file `file` fetches
/// and records (see [`mod_fetch_plan`]).
pub open spec fn mod_fetch_is(
    f: ModFetch,
    pid: Seq<char>,
    v: CatalogVersion,
    file: CatalogFile,
    pins: Seq<(String, String)>,
    cache_dir: Seq<char>,
    mods_dir: Seq<char>,
) -> bool {
    &&& f.url@ == file.url@
    &&& f.cached@ == join(join(join(cache_dir, "mods"@), cache_key(file, v.id@)), file.filename@)
    &&& f.dest@ == join(mods_dir, file.filename@)
    &&& oview(f.sha1) == oview(file.sha1)
    &&& oview(f.sha512) == oview(file.sha512)
    &&& f.pinned == (lookup(pairs_view(pins), pid) is Some)
    &&& f.display@ == display_for(v.name@, file.filename@)
    &&& oview(f.version_number) == (if v.version_number@.len() == 0 {
        None
    } else {
        Some(v.version_number@)
    })
    &&& f.lock.path@ == f.dest@
    &&& oview(f.lock.sha1) == oview(file.sha1)
    &&& oview(f.lock.sha512) == oview(file.sha512)
    &&& f.lock.source@ == "modrinth"@
    &&& oview(f.lock.project_id) == Some(pid)
    &&& oview(f.lock.version_id) == Some(v.id@)
    &&& oview(f.lock.filename) == Some(file.filename@)
    &&& f.lock.pinned == f.pinned
    &&& f.lock.enabled
}

/// What installing the resolved version `vid` of project `pid` fetches and
/// records: the primary file of the first fetched version of `pid`, cached
/// under its SHA-512 (else SHA-1, else the version id) and copied into
/// `mods/`, and its lockfile entry. A project missing from the fetched
/// versions, a fetched version other than the resolved one, or a version
/// without files is refused.
pub fn mod_fetch_plan(
    pid: &str,
    vid: &str,
    versions: &Vec<CatalogVersion>,
    pins: &Vec<(String, String)>,
    cache_dir: &str,
    mods_dir: &str,
) -> (r: AppResult<ModFetch>)
    ensures
        !known(versions@, pid@) ==> (r matches Err(e) && e.message@ == "Resolved "@ + pid@
            + " is missing from the fetch set"@),
        forall|i: int| #[trigger]
            first_project_at(versions@, pid@, i) ==> {
                let v = versions@[i];
                &&& v.id@ != vid@ ==> (r matches Err(e) && e.message@ == "Version mismatch for "@
                    + pid@ + ": resolved "@ + vid@ + ", fetched "@ + v.id@)
                &&& (v.id@ == vid@ && primary_choice(v.files@) is None) ==> (r matches Err(e)
                    && e.message@ == "Version has no downloadable files"@)
                &&& (v.id@ == vid@ && primary_choice(v.files@) is Some) ==> (r matches Ok(f)
                    && mod_fetch_is(f, pid@, v, primary_choice(v.files@)->Some_0, pins@, cache_dir@, mods_dir@))
            },
{
    let found = position_of(versions, pid);
    let i = match found {
        Some(i) => i,
        None => {
            let mut m = chars_of("Resolved ");
            append_str(&mut m, pid);
            append_str(&mut m, " is missing from the fetch set");
            return Err(AppError::msg(string_of(&m)));
        },
    };
    let ver = &versions[i];
    assert(forall|j: int| #[trigger] first_project_at(versions@, pid@, j) ==> j == i);
    if !str_eq(ver.id.as_str(), vid) {
        let mut m = chars_of("Version mismatch for ");
        append_str(&mut m, pid);
        append_str(&mut m, ": resolved ");
        append_str(&mut m, vid);
        append_str(&mut m, ", fetched ");
        append_str(&mut m, ver.id.as_str());
        return Err(AppError::msg(string_of(&m)));
    }
    let file = match primary_file(ver) {
        Ok(f) => f,
        Err(e) => {
            return Err(e);
        },
    };
    let key = file_cache_key(file, ver.id.as_str());
    let cached_dir = path_join_str(&path_join_str(&chars_of(cache_dir), "mods"), key.as_str());
    let cached = string_of(&crate::paths::path_join(&cached_dir, &chars_of(file.filename.as_str())));
    let dest = string_of(&path_join_str(&chars_of(mods_dir), file.filename.as_str()));
    let pinned = crate::resolve::assoc_get(pins.as_slice(), pid).is_some();
    let display = if chars_of(ver.name.as_str()).len() == 0 {
        display_from_filename(file.filename.as_str())
    } else {
        ver.name.clone()
    };
    let version_number = if chars_of(ver.version_number.as_str()).len() == 0 {
        None
    } else {
        Some(ver.version_number.clone())
    };
    let lock = LockfileEntry {
        path: dest.clone(),
        sha1: copy_opt(&file.sha1),
        sha512: copy_opt(&file.sha512),
        source: lit("modrinth"),
        project_id: Some(lit(pid)),
        version_id: Some(lit(vid)),
        filename: Some(file.filename.clone()),
        pinned,
        enabled: true,
    };
    Ok(
        ModFetch {
            url: file.url.clone(),
            cached,
            dest,
            sha1: copy_opt(&file.sha1),
            sha512: copy_opt(&file.sha512),
            pinned,
            display,
            version_number,
            lock,
        },
    )
}

// ===========================================================================
// Reordering
// ===========================================================================

/// One change of a reorder: the stored order of a recorded project, or the
/// order of a jar found only on disk (stored anew when it has no row yet).
pub enum ReorderStep {
    Order { project_id: String, order: i64 },
    Local { project_id: String, filename: String, enabled: bool, display_name: Option<String>, order: i64 },
}

/// The view of a reorder step.
pub enum ReorderV {
    Order(Seq<char>, int),
    Local(Seq<char>, Seq<char>, bool, Option<Seq<char>>, int),
}

pub open spec fn reorder_view(s: ReorderStep) -> ReorderV {
    match s {
        ReorderStep::Order { project_id, order } => ReorderV::Order(project_id@, order as int),
        ReorderStep::Local { project_id, filename, enabled, display_name, order } => ReorderV::Local(
            project_id@,
            filename@,
            enabled,
            oview(display_name),
            order as int,
        ),
    }
}

pub open spec fn reorder_views(s: Seq<ReorderStep>) -> Seq<ReorderV> {
    s.map_values(|x: ReorderStep| reorder_view(x))
}

/// The position of the last listed mod of project `pid`, if any.
pub open spec fn last_with(ms: Seq<InstalledMod>, pid: Seq<char>) -> Option<int>
    decreases ms.len(),
{
    if ms.len() == 0 {
        None
    } else if ms.last().project_id@ == pid {
        Some(ms.len() - 1)
    } else {
        last_with(ms.drop_last(), pid)
    }
}

/// The step for the project at position `idx` of the requested order: a
/// local jar takes its file name, state and display name from its listed
/// entry and is left out when it is not listed.
pub open spec fn step_for(current: Seq<InstalledMod>, pid: Seq<char>, idx: int) -> Seq<ReorderV> {
    if starts_with(pid, "local:"@) {
        match last_with(current, pid) {
            Some(k) => seq![
                ReorderV::Local(
                    pid,
                    pid.skip("local:"@.len() as int),
                    current[k].enabled,
                    oview(current[k].display_name),
                    idx,
                ),
            ],
            None => Seq::empty(),
        }
    } else {
        seq![ReorderV::Order(pid, idx)]
    }
}

/// The steps that give each requested project its position as order.
pub open spec fn reorder_steps(current: Seq<InstalledMod>, ids: Seq<Seq<char>>) -> Seq<ReorderV>
    decreases ids.len(),
{
    if ids.len() == 0 {
        Seq::empty()
    } else {
        reorder_steps(current, ids.drop_last()) + step_for(current, ids.last(), ids.len() - 1)
    }
}

fn last_listed(current: &Vec<InstalledMod>, pid: &str) -> (r: Option<usize>)
    ensures
        match r {
            Some(k) => last_with(current@, pid@) == Some(k as int) && k < current.len(),
            None => last_with(current@, pid@) is None,
        },
{
    let mut found: Option<usize> = None;
    let mut k: usize = 0;
    while k < current.len()
        invariant
            k <= current.len(),
            match found {
                Some(j) => last_with(current@.take(k as int), pid@) == Some(j as int) && j < k,
                None => last_with(current@.take(k as int), pid@) is None,
            },
        decreases current.len() - k,
    {
        assert(current@.take(k + 1).drop_last() =~= current@.take(k as int));
        if str_eq(current[k].project_id.as_str(), pid) {
            found = Some(k);
        }
        k += 1;
    }
    assert(current@.take(current.len() as int) =~= current@);
    found
}

/// The changes that store the order the user chose (see [`reorder_steps`]).
pub fn reorder_plan(current: &Vec<InstalledMod>, project_ids: &Vec<String>) -> (r: Vec<ReorderStep>)
    requires
        project_ids.len() <= i64::MAX,
    ensures
        reorder_views(r@) == reorder_steps(current@, svs(project_ids@)),
{
    let ghost ids = svs(project_ids@);
    let mut out: Vec<ReorderStep> = Vec::new();
    let mut i: usize = 0;
    while i < project_ids.len()
        invariant
            i <= project_ids.len(),
            project_ids.len() <= i64::MAX,
            ids == svs(project_ids@),
            reorder_views(out@) == reorder_steps(current@, ids.take(i as int)),
        decreases project_ids.len() - i,
    {
        let pid = project_ids[i].as_str();
        let ghost before = out@;
        assert(ids.take(i + 1).drop_last() =~= ids.take(i as int));
        assert(ids.take(i + 1).last() == pid@);
        let order = i as i64;
        if has_prefix_str(&chars_of(pid), "local:") {
            match last_listed(current, pid) {
                Some(k) => {
                    let cs = chars_of(pid);
                    let n = chars_of("local:").len();
                    let name = string_of(&slice(&cs, n, cs.len()));
                    assert(name@ =~= pid@.skip("local:"@.len() as int));
                    out.push(
                        ReorderStep::Local {
                            project_id: lit(pid),
                            filename: name,
                            enabled: current[k].enabled,
                            display_name: copy_opt(&current[k].display_name),
                            order,
                        },
                    );
                },
                None => {},
            }
        } else {
            out.push(ReorderStep::Order { project_id: lit(pid), order });
        }
        assert(reorder_views(out@) =~= reorder_views(before) + step_for(current@, pid@, i as int));
        i += 1;
    }
    assert(ids.take(project_ids.len() as int) =~= ids);
    out
}

/// Disabling a jar and enabling it again are inverse renames: enabling
/// moves the disabled file back to the name disabling moved it from.
pub proof fn law_toggle_round_trip(mods: Seq<char>, filename: Seq<char>)
    ensures
        toggle_of(mods, filename, true).0 == toggle_of(mods, filename, false).1,
        toggle_of(mods, filename, true).1 == toggle_of(mods, filename, false).0,
{
}


/// The load order as a relation.
pub open spec fn mod_order() -> spec_fn(InstalledMod, InstalledMod) -> bool {
    |a: InstalledMod, b: InstalledMod| mod_le(a, b)
}

proof fn lemma_mod_insert_is(s: Seq<InstalledMod>, x: InstalledMod)
    ensures
        sorted_insert(s, x) == ins(s, x, mod_order()),
    decreases s.len(),
{
    if s.len() > 0 {
        lemma_mod_insert_is(s.drop_last(), x);
    }
}

proof fn lemma_mod_sort_is(s: Seq<InstalledMod>)
    ensures
        mod_sort(s) == isort(s, mod_order()),
    decreases s.len(),
{
    if s.len() > 0 {
        lemma_mod_sort_is(s.drop_last());
        lemma_mod_insert_is(mod_sort(s.drop_last()), s.last());
    }
}

proof fn lemma_mod_order_total()
    ensures
        total_preorder(mod_order()),
{
    let le = mod_order();
    assert forall|a: InstalledMod, b: InstalledMod| #[trigger] le(a, b) || le(b, a) by {
        lemma_chars_le_total(lower(a.filename@), lower(b.filename@));
    }
    assert forall|a: InstalledMod, b: InstalledMod, c: InstalledMod|
        #[trigger] le(a, b) && #[trigger] le(b, c) implies le(a, c) by {
        let (p, q, r) = (lower(a.filename@), lower(b.filename@), lower(c.filename@));
        if chars_le(p, q) && chars_le(q, r) {
            lemma_chars_le_trans(p, q, r);
        }
    }
}

/// A mod listing comes out in load order — by `sort_order`, then by file
/// name ignoring ASCII case — and holds exactly the records it was given.
pub proof fn law_mod_listing_sorted(s: Seq<InstalledMod>)
    ensures
        forall|i: int, j: int|
            0 <= i < j < mod_sort(s).len() ==> mod_le(#[trigger] mod_sort(s)[i], #[trigger] mod_sort(s)[j]),
        mod_sort(s).to_multiset() == s.to_multiset(),
{
    lemma_mod_order_total();
    lemma_mod_sort_is(s);
    lemma_isort(s, mod_order());
    assert forall|i: int, j: int| 0 <= i < j < mod_sort(s).len() implies mod_le(
        #[trigger] mod_sort(s)[i],
        #[trigger] mod_sort(s)[j],
    ) by {
        assert(mod_order()(mod_sort(s)[i], mod_sort(s)[j]));
    }
}


proof fn lemma_pinned_fold_at(existing: Seq<InstalledMod>, i: int)
    requires
        0 <= i < existing.len(),
        existing[i].pinned,
        forall|j: int|
            i < j < existing.len() && (#[trigger] existing[j]).pinned ==> existing[j].project_id@ != existing[i].project_id@,
    ensures
        lookup(pinned_fold(existing), existing[i].project_id@) == Some(existing[i].version_id@),
    decreases existing.len(),
{
    let d = existing.drop_last();
    let last = existing.last();
    assert(last == existing[existing.len() - 1]);
    if i == existing.len() - 1 {
        crate::resolve::lemma_assoc_set(pinned_fold(d), last.project_id@, last.version_id@, last.project_id@);
    } else {
        assert forall|j: int| i < j < d.len() && (#[trigger] d[j]).pinned implies d[j].project_id@ != d[i].project_id@ by {
            assert(d[j] == existing[j]);
        }
        assert(d[i] == existing[i]);
        lemma_pinned_fold_at(d, i);
        if last.pinned {
            crate::resolve::lemma_assoc_set(pinned_fold(d), last.project_id@, last.version_id@, existing[i].project_id@);
        }
    }
}

proof fn lemma_pinned_fold_none(existing: Seq<InstalledMod>, p: Seq<char>)
    requires
        forall|j: int| 0 <= j < existing.len() && (#[trigger] existing[j]).pinned ==> existing[j].project_id@ != p,
    ensures
        lookup(pinned_fold(existing), p) is None,
    decreases existing.len(),
{
    if existing.len() > 0 {
        let d = existing.drop_last();
        let last = existing.last();
        assert(last == existing[existing.len() - 1]);
        assert forall|j: int| 0 <= j < d.len() && (#[trigger] d[j]).pinned implies d[j].project_id@ != p by {
            assert(d[j] == existing[j]);
        }
        lemma_pinned_fold_none(d, p);
        if last.pinned {
            crate::resolve::lemma_assoc_set(pinned_fold(d), last.project_id@, last.version_id@, p);
        }
    }
}

/// The user's pins survive an install: a pinned installed mod is pinned at
/// its installed version (when a project has several pinned records, the
/// last one counts), unless the request pins that very project itself.
pub proof fn law_installed_pins_kept(
    existing: Seq<InstalledMod>,
    root_pid: Seq<char>,
    root_vid: Seq<char>,
    pin_root: bool,
    i: int,
)
    requires
        0 <= i < existing.len(),
        existing[i].pinned,
        forall|j: int|
            i < j < existing.len() && (#[trigger] existing[j]).pinned ==> existing[j].project_id@ != existing[i].project_id@,
        pin_root ==> root_pid != existing[i].project_id@,
    ensures
        lookup(pins_spec(existing, root_pid, root_vid, pin_root), existing[i].project_id@) == Some(
            existing[i].version_id@,
        ),
{
    lemma_pinned_fold_at(existing, i);
    if pin_root {
        crate::resolve::lemma_assoc_set(pinned_fold(existing), root_pid, root_vid, existing[i].project_id@);
    }
}

/// Only the user's pins and the request's own pin are pinned: a pinning
/// request pins the installed project at the chosen version, and a project
/// with no pinned installed record that the request does not pin is not
/// pinned.
pub proof fn law_pins_exact(
    existing: Seq<InstalledMod>,
    root_pid: Seq<char>,
    root_vid: Seq<char>,
    pin_root: bool,
    p: Seq<char>,
)
    ensures
        pin_root ==> lookup(pins_spec(existing, root_pid, root_vid, pin_root), root_pid) == Some(root_vid),
        (forall|j: int| 0 <= j < existing.len() && (#[trigger] existing[j]).pinned ==> existing[j].project_id@ != p)
            && !(pin_root && root_pid == p) ==> lookup(pins_spec(existing, root_pid, root_vid, pin_root), p) is None,
{
    crate::resolve::lemma_assoc_set(pinned_fold(existing), root_pid, root_vid, p);
    crate::resolve::lemma_assoc_set(pinned_fold(existing), root_pid, root_vid, root_pid);
    if forall|j: int| 0 <= j < existing.len() && (#[trigger] existing[j]).pinned ==> existing[j].project_id@ != p {
        lemma_pinned_fold_none(existing, p);
    }
}


/// An update check that asks the catalog (a mod from the catalog, not
/// pinned, on a modded instance, with versions offered) reports `update`
/// with the newest offered version as the pending update whenever that
/// version is not the installed one, whether or not the installed version
/// is still offered; and reports `ok` when the newest offered version is
/// the installed one.
pub proof fn law_update_offered(m: InstalledMod, loader: Seq<char>, offered: Seq<CatalogVersion>)
    requires
        m.source@ != "local"@,
        !is_local(m.project_id@),
        !m.pinned,
        loader != "vanilla"@,
        offered.len() > 0,
    ensures
        offered[0].id@ != m.version_id@ ==> update_check(m, loader, offered) == (
            "update"@,
            Some(offered[0].id@),
        ),
        offered[0].id@ == m.version_id@ ==> update_check(m, loader, offered).0 == "ok"@,
{
    if offered[0].id@ == m.version_id@ {
        assert(0 <= 0 < offered.len() && offered[0].id@ == m.version_id@);
    }
}

} // verus!
