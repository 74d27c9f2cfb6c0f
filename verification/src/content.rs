//! Resource packs, shader packs and datapacks inside an instance.
use vstd::prelude::*;
use crate::catalog::{
    CatalogFile, CatalogVersion, ProjectDetail, cache_key, file_cache_key, primary_choice,
    primary_file, svs,
};
use crate::error::{AppError, AppResult};
use crate::instances::Instance;
use crate::mods::{chars_le, chars_le_exec};
use crate::order::{
    ins, isort, lemma_chars_le_antisym, lemma_chars_le_total, lemma_chars_le_trans, lemma_isort,
    total_preorder,
};
use crate::paths::{join, path_join, path_join_str};
use crate::resolve::{Lockfile, LockfileEntry};
use crate::text::{
    append, append_str, chars_of, contains_seq, contains_str, copy_opt, ends_with, eq, has_char,
    has_prefix_str, has_suffix, has_suffix_str, lit, lower, oview, replace, replace_char,
    starts_with, str_eq, string_of, to_lower, index_of, find_char, slice, lemma_index_of,
};

verus! {

broadcast use vstd::string::group_string_axioms;

/// What the user asks to install: a catalog project of a content type.
pub struct InstallContentRequest {
    pub instance_id: String,
    pub project_id: String,
    pub version_id: Option<String>,
    /// `resourcepack` | `shader` | `datapack`
    pub project_type: String,
    pub channel: Option<String>,
}

/// Where an installed content file went.
pub struct ContentInstallResult {
    pub path: String,
    pub filename: String,
    pub project_type: String,
}

/// A resource pack, shader pack or datapack found in an instance.
pub struct InstalledContent {
    pub id: String,
    pub instance_id: String,
    pub project_type: String,
    pub filename: String,
    pub path: String,
    pub source: String,
    pub project_id: Option<String>,
    pub version_id: Option<String>,
    pub sha1: Option<String>,
    pub sha512: Option<String>,
    /// `file` or `dir`
    pub kind: String,
    pub update_version_id: Option<String>,
    /// `ok` | `update` | `incompatible` | `local`
    pub compat_status: Option<String>,
}

/// One entry of a content folder, as found on disk.
pub struct ContentScan {
    pub folder: String,
    pub name: String,
    pub is_dir: bool,
    pub is_file: bool,
}

/// The folder of a content type: `resourcepacks`, `shaderpacks` or `datapacks`.
pub open spec fn folder_of(project_type: Seq<char>) -> Option<Seq<char>> {
    if project_type == "resourcepack"@ || project_type == "resourcepacks"@ {
        Some("resourcepacks"@)
    } else if project_type == "shader"@ || project_type == "shaderpack"@ || project_type
        == "shaderpacks"@ {
        Some("shaderpacks"@)
    } else if project_type == "datapack"@ || project_type == "datapacks"@ {
        Some("datapacks"@)
    } else {
        None
    }
}

/// The folder content of `project_type` installs into; other types are refused.
pub fn content_dir(project_type: &str) -> (r: AppResult<String>)
    ensures
        match r {
            Ok(d) => folder_of(project_type@) == Some(d@),
            Err(e) => folder_of(project_type@) is None && e.message@ == "Unsupported content type '"@
                + project_type@ + "' (expected resourcepack, shader, or datapack)"@,
        },
{
    if str_eq(project_type, "resourcepack") || str_eq(project_type, "resourcepacks") {
        Ok(lit("resourcepacks"))
    } else if str_eq(project_type, "shader") || str_eq(project_type, "shaderpack") || str_eq(
        project_type,
        "shaderpacks",
    ) {
        Ok(lit("shaderpacks"))
    } else if str_eq(project_type, "datapack") || str_eq(project_type, "datapacks") {
        Ok(lit("datapacks"))
    } else {
        let mut m = chars_of("Unsupported content type '");
        crate::text::append(&mut m, &chars_of(project_type));
        crate::text::append_str(&mut m, "' (expected resourcepack, shader, or datapack)");
        Err(AppError::msg(string_of(&m)))
    }
}

/// The content type a content folder holds.
pub open spec fn type_of_folder(folder: Seq<char>) -> Seq<char> {
    if folder == "shaderpacks"@ {
        "shader"@
    } else if folder == "datapacks"@ {
        "datapack"@
    } else {
        "resourcepack"@
    }
}

pub fn type_for_folder(folder: &str) -> (r: String)
    ensures
        r@ == type_of_folder(folder@),
{
    if str_eq(folder, "shaderpacks") {
        lit("shader")
    } else if str_eq(folder, "datapacks") {
        lit("datapack")
    } else {
        lit("resourcepack")
    }
}

/// The folders scanned for content.
pub open spec fn is_content_folder(f: Seq<char>) -> bool {
    f == "resourcepacks"@ || f == "shaderpacks"@ || f == "datapacks"@
}

/// A folder entry counts as content: not hidden, and a directory or a
/// `.zip`, `.jar` or `.mcpack` file (any letter case).
pub open spec fn content_entry(name: Seq<char>, is_dir: bool) -> bool {
    !starts_with(name, "."@) && (is_dir || ends_with(lower(name), ".zip"@) || ends_with(
        lower(name),
        ".jar"@,
    ) || ends_with(lower(name), ".mcpack"@))
}

pub fn is_content_entry(name: &str, is_dir: bool) -> (b: bool)
    ensures
        b == content_entry(name@, is_dir),
{
    let n = chars_of(name);
    if has_prefix_str(&n, ".") {
        return false;
    }
    if is_dir {
        return true;
    }
    let l = to_lower(&n);
    has_suffix_str(&l, ".zip") || has_suffix_str(&l, ".jar") || has_suffix_str(&l, ".mcpack")
}

/// The folder and entry name a content id (`folder:name`) designates, when
/// the folder is a content folder and the name is a plain, non-empty entry
/// name (no `..`, `/` or `\`).
pub open spec fn content_target(content_id: Seq<char>) -> Result<(Seq<char>, Seq<char>), Seq<char>> {
    match index_of(content_id, ':') {
        None => Err("Invalid content id"@),
        Some(i) => {
            let folder = content_id.take(i);
            let name = content_id.skip(i + 1);
            if !is_content_folder(folder) {
                Err("Unknown content folder"@)
            } else if name.len() == 0 || contains_seq(name, ".."@) || name.contains('/')
                || name.contains('\\') {
                Err("Unsafe content name"@)
            } else {
                Ok((folder, name))
            }
        },
    }
}

/// Checks a content id before removal (see [`content_target`]); the caller
/// then removes `{game_dir}/{folder}/{name}` and its lockfile entries.
pub fn remove_content(content_id: &str) -> (r: AppResult<(String, String)>)
    ensures
        match r {
            Ok((f, n)) => content_target(content_id@) == Ok::<(Seq<char>, Seq<char>), Seq<char>>(
                (f@, n@),
            ),
            Err(e) => content_target(content_id@) == Err::<(Seq<char>, Seq<char>), Seq<char>>(
                e.message@,
            ),
        },
{
    let id = chars_of(content_id);
    let i = match find_char(&id, ':') {
        Some(i) => i,
        None => {
            return Err(AppError::lit("Invalid content id"));
        },
    };
    proof {
        lemma_index_of(id@, ':');
    }
    let folder = slice(&id, 0, i);
    let name = slice(&id, i + 1, id.len());
    assert(folder@ == id@.take(i as int));
    assert(name@ == id@.skip(i + 1));
    let fs = string_of(&folder);
    if !(str_eq(fs.as_str(), "resourcepacks") || str_eq(fs.as_str(), "shaderpacks") || str_eq(
        fs.as_str(),
        "datapacks",
    )) {
        return Err(AppError::lit("Unknown content folder"));
    }
    if name.len() == 0 || contains_str(&name, "..") || has_char(&name, '/') || has_char(&name, '\\') {
        return Err(AppError::lit("Unsafe content name"));
    }
    Ok((fs, string_of(&name)))
}

// ===========================================================================
// Listing
// ===========================================================================

/// A scanned entry is listed: a directory or a file, and content by name.
pub open spec fn scan_kept(s: ContentScan) -> bool {
    (s.is_dir || s.is_file) && content_entry(s.name@, s.is_dir)
}

/// The listed entries among `scans`, in their order.
pub open spec fn kept_scans(scans: Seq<ContentScan>) -> Seq<ContentScan>
    decreases scans.len(),
{
    if scans.len() == 0 {
        Seq::empty()
    } else if scan_kept(scans.last()) {
        kept_scans(scans.drop_last()).push(scans.last())
    } else {
        kept_scans(scans.drop_last())
    }
}

/// A path with every `\\` turned into `/`.
pub open spec fn slashed(p: Seq<char>) -> Seq<char> {
    replace(p, seq!['\\'], seq!['/'])
}

/// `{game_dir}/{folder}/{name}`.
pub open spec fn content_path(game_dir: Seq<char>, folder: Seq<char>, name: Seq<char>) -> Seq<char> {
    join(join(game_dir, folder), name)
}

/// A lockfile entry records the content file `full` (`{folder}/{name}`):
/// same path up to separators, same file name, or a path ending in
/// `/{folder}/{name}`.
pub open spec fn lock_hits(f: LockfileEntry, full: Seq<char>, folder: Seq<char>, name: Seq<char>) -> bool {
    ||| slashed(f.path@) == slashed(full)
    ||| oview(f.filename) == Some(name)
    ||| ends_with(slashed(f.path@), "/"@ + folder + "/"@ + name)
}

/// The first lockfile entry that records the content file, if any.
pub open spec fn first_hit(files: Seq<LockfileEntry>, full: Seq<char>, folder: Seq<char>, name: Seq<char>) -> Option<LockfileEntry>
    decreases files.len(),
{
    if files.len() == 0 {
        None
    } else if lock_hits(files[0], full, folder, name) {
        Some(files[0])
    } else {
        first_hit(files.drop_first(), full, folder, name)
    }
}

/// `c` lists the scanned entry `s` of instance `instance_id` (game folder
/// `game_dir`), with what the lockfile entry `hit` recorded of it.
pub open spec fn item_matches(
    c: InstalledContent,
    instance_id: Seq<char>,
    game_dir: Seq<char>,
    s: ContentScan,
    hit: Option<LockfileEntry>,
) -> bool {
    &&& c.id@ == s.folder@ + ":"@ + s.name@
    &&& c.instance_id@ == instance_id
    &&& c.project_type@ == type_of_folder(s.folder@)
    &&& c.filename@ == s.name@
    &&& c.path@ == content_path(game_dir, s.folder@, s.name@)
    &&& c.source@ == (match hit {
        Some(f) => f.source@,
        None => "local"@,
    })
    &&& oview(c.project_id) == (match hit {
        Some(f) => oview(f.project_id),
        None => None,
    })
    &&& oview(c.version_id) == (match hit {
        Some(f) => oview(f.version_id),
        None => None,
    })
    &&& oview(c.sha1) == (match hit {
        Some(f) => oview(f.sha1),
        None => None,
    })
    &&& oview(c.sha512) == (match hit {
        Some(f) => oview(f.sha512),
        None => None,
    })
    &&& c.kind@ == (if s.is_dir {
        "dir"@
    } else {
        "file"@
    })
    &&& c.update_version_id is None
    &&& c.compat_status is None
}

/// The hit of the scanned entry `s` in `files`.
pub open spec fn hit_of(files: Seq<LockfileEntry>, game_dir: Seq<char>, s: ContentScan) -> Option<LockfileEntry> {
    first_hit(files, content_path(game_dir, s.folder@, s.name@), s.folder@, s.name@)
}

/// `items` list the entries `kept`, one for one, with their lockfile hits.
pub open spec fn listing_items(
    items: Seq<InstalledContent>,
    instance_id: Seq<char>,
    game_dir: Seq<char>,
    kept: Seq<ContentScan>,
    files: Seq<LockfileEntry>,
) -> bool {
    &&& items.len() == kept.len()
    &&& forall|k: int|
        0 <= k < kept.len() ==> item_matches(#[trigger] items[k], instance_id, game_dir, kept[k], hit_of(files, game_dir, kept[k]))
}

fn find_hit(files: &Vec<LockfileEntry>, full: &Vec<char>, folder: &str, name: &str) -> (r: Option<usize>)
    ensures
        match r {
            Some(i) => i < files.len() && first_hit(files@, full@, folder@, name@) == Some(files@[i as int]),
            None => first_hit(files@, full@, folder@, name@) is None,
        },
{
    let full_s = replace_char(full, '\\', '/');
    let mut tail = chars_of("/");
    append_str(&mut tail, folder);
    append_str(&mut tail, "/");
    append_str(&mut tail, name);
    let mut i: usize = 0;
    assert(files@.skip(0) =~= files@);
    while i < files.len()
        invariant
            i <= files.len(),
            full_s@ == slashed(full@),
            tail@ == "/"@ + folder@ + "/"@ + name@,
            first_hit(files@, full@, folder@, name@) == first_hit(files@.skip(i as int), full@, folder@, name@),
        decreases files.len() - i,
    {
        let f = &files[i];
        let p = replace_char(&chars_of(f.path.as_str()), '\\', '/');
        let same_name = match &f.filename {
            Some(n) => str_eq(n.as_str(), name),
            None => false,
        };
        assert(files@.skip(i as int)[0] == files@[i as int]);
        assert(files@.skip(i as int).drop_first() =~= files@.skip(i + 1));
        if eq(&p, &full_s) || same_name || has_suffix(&p, &tail) {
            return Some(i);
        }
        i += 1;
    }
    None
}

fn content_item(instance_id: &str, game_dir: &str, s: &ContentScan, files: &Vec<LockfileEntry>) -> (c: InstalledContent)
    ensures
        item_matches(c, instance_id@, game_dir@, *s, hit_of(files@, game_dir@, *s)),
{
    let root = path_join_str(&chars_of(game_dir), s.folder.as_str());
    let full = path_join_str(&root, s.name.as_str());
    let hit = find_hit(files, &full, s.folder.as_str(), s.name.as_str());
    let mut id = chars_of(s.folder.as_str());
    append_str(&mut id, ":");
    append_str(&mut id, s.name.as_str());
    let (source, project_id, version_id, sha1, sha512) = match hit {
        Some(i) => {
            let f = &files[i];
            (f.source.clone(), copy_opt(&f.project_id), copy_opt(&f.version_id), copy_opt(&f.sha1), copy_opt(&f.sha512))
        },
        None => (lit("local"), None, None, None, None),
    };
    InstalledContent {
        id: string_of(&id),
        instance_id: lit(instance_id),
        project_type: type_for_folder(s.folder.as_str()),
        filename: s.name.clone(),
        path: string_of(&full),
        source,
        project_id,
        version_id,
        sha1,
        sha512,
        kind: if s.is_dir {
            lit("dir")
        } else {
            lit("file")
        },
        update_version_id: None,
        compat_status: None,
    }
}

/// Lexicographic strict order of texts by character.
pub open spec fn chars_lt(a: Seq<char>, b: Seq<char>) -> bool {
    chars_le(a, b) && a != b
}

/// The listing order: by content type, then by file name ignoring ASCII case.
pub open spec fn content_le(a: InstalledContent, b: InstalledContent) -> bool {
    chars_lt(a.project_type@, b.project_type@) || (a.project_type@ == b.project_type@ && chars_le(
        lower(a.filename@),
        lower(b.filename@),
    ))
}

/// `x` inserted into `s` after every trailing element that sorts after it.
pub open spec fn content_insert(s: Seq<InstalledContent>, x: InstalledContent) -> Seq<InstalledContent>
    decreases s.len(),
{
    if s.len() == 0 {
        seq![x]
    } else if content_le(s.last(), x) {
        s.push(x)
    } else {
        content_insert(s.drop_last(), x).push(s.last())
    }
}

/// The entries sorted by [`content_le`], equal ones keeping their order.
pub open spec fn content_sort(s: Seq<InstalledContent>) -> Seq<InstalledContent>
    decreases s.len(),
{
    if s.len() == 0 {
        Seq::empty()
    } else {
        content_insert(content_sort(s.drop_last()), s.last())
    }
}

fn content_le_exec(a: &InstalledContent, b: &InstalledContent) -> (r: bool)
    ensures
        r == content_le(*a, *b),
{
    let ta = chars_of(a.project_type.as_str());
    let tb = chars_of(b.project_type.as_str());
    if !eq(&ta, &tb) {
        return chars_le_exec(&ta, &tb);
    }
    let la = to_lower(&chars_of(a.filename.as_str()));
    let lb = to_lower(&chars_of(b.filename.as_str()));
    chars_le_exec(&la, &lb)
}

fn insert_content(v: &mut Vec<InstalledContent>, x: InstalledContent)
    ensures
        final(v)@ == content_insert(old(v)@, x),
{
    let ghost s = v@;
    let mut j = v.len();
    assert(s.take(j as int) =~= s);
    assert(s.skip(j as int) =~= Seq::<InstalledContent>::empty());
    while j > 0 && !content_le_exec(&v[j - 1], &x)
        invariant
            j <= v.len(),
            v@ == s,
            s == old(v)@,
            content_insert(s, x) == content_insert(s.take(j as int), x) + s.skip(j as int),
        decreases j,
    {
        assert(s.take(j as int).drop_last() =~= s.take(j - 1));
        assert(s.take(j as int).last() == s[j - 1]);
        assert(s.skip(j - 1) =~= seq![s[j - 1]] + s.skip(j as int));
        assert(content_insert(s.take(j as int), x) == content_insert(s.take(j - 1), x).push(s[j - 1]));
        assert(content_insert(s.take(j - 1), x).push(s[j - 1]) + s.skip(j as int) =~= content_insert(
            s.take(j - 1),
            x,
        ) + s.skip(j - 1));
        j -= 1;
    }
    if j > 0 {
        assert(s.take(j as int).last() == s[j - 1]);
        assert(content_insert(s.take(j as int), x) == s.take(j as int).push(x));
    } else {
        assert(s.take(0) =~= Seq::<InstalledContent>::empty());
    }
    let ghost xv = x;
    v.insert(j, x);
    assert(v@ =~= s.take(j as int).push(xv) + s.skip(j as int));
}

/// Sorts a content listing (see [`content_sort`]).
pub fn sort_content(v: Vec<InstalledContent>) -> (r: Vec<InstalledContent>)
    ensures
        r@ == content_sort(v@),
{
    let ghost orig = v@;
    assert(orig.len() == v.len());
    let mut rest = v;
    let mut out: Vec<InstalledContent> = Vec::new();
    let mut k: usize = 0;
    assert(orig.skip(0) =~= orig);
    while rest.len() > 0
        invariant
            k <= orig.len(),
            orig.len() <= usize::MAX,
            rest@ == orig.skip(k as int),
            out@ == content_sort(orig.take(k as int)),
        decreases rest.len(),
    {
        let x = rest.remove(0);
        assert(orig.take(k + 1).drop_last() =~= orig.take(k as int));
        assert(orig.take(k + 1).last() == x);
        insert_content(&mut out, x);
        assert(rest@ =~= orig.skip(k + 1));
        k += 1;
    }
    assert(orig.take(k as int) =~= orig);
    out
}

/// The content of an instance: the scanned entries of its content folders
/// that are content (see [`scan_kept`]), each with what the first lockfile
/// entry recording it says (see [`lock_hits`]), or as local when none does,
/// sorted by type, then by file name ignoring ASCII case.
pub fn list_content(instance: &Instance, lock: &Lockfile, scans: &Vec<ContentScan>) -> (r: Vec<InstalledContent>)
    ensures
        exists|items: Seq<InstalledContent>|
            #[trigger] content_sort(items) == r@ && listing_items(items, instance.id@, instance.game_dir@, kept_scans(scans@), lock.files@),
{
    let mut items: Vec<InstalledContent> = Vec::new();
    let mut i: usize = 0;
    while i < scans.len()
        invariant
            i <= scans.len(),
            listing_items(items@, instance.id@, instance.game_dir@, kept_scans(scans@.take(i as int)), lock.files@),
        decreases scans.len() - i,
    {
        let s = &scans[i];
        assert(scans@.take(i + 1).drop_last() =~= scans@.take(i as int));
        assert(scans@.take(i + 1).last() == *s);
        if (s.is_dir || s.is_file) && is_content_entry(s.name.as_str(), s.is_dir) {
            let c = content_item(instance.id.as_str(), instance.game_dir.as_str(), s, &lock.files);
            items.push(c);
        }
        i += 1;
    }
    assert(scans@.take(scans.len() as int) =~= scans@);
    let ghost all = items@;
    let r = sort_content(items);
    assert(content_sort(all) == r@);
    r
}

// ===========================================================================
// Removal
// ===========================================================================

/// The path of content file `name` in `folder` (see [`content_path`]).
pub fn content_file_path(game_dir: &str, folder: &str, name: &str) -> (r: String)
    ensures
        r@ == content_path(game_dir@, folder@, name@),
{
    let root = path_join_str(&chars_of(game_dir), folder);
    string_of(&path_join_str(&root, name))
}

/// A lockfile entry survives the removal of content file `name` at `full`:
/// its path differs up to separators and it names another file.
pub open spec fn survives_removal(f: LockfileEntry, full: Seq<char>, name: Seq<char>) -> bool {
    slashed(f.path@) != slashed(full) && oview(f.filename) != Some(name)
}

/// The entries of `files` that survive the removal, in their order.
pub open spec fn surviving(files: Seq<LockfileEntry>, full: Seq<char>, name: Seq<char>) -> Seq<LockfileEntry>
    decreases files.len(),
{
    if files.len() == 0 {
        Seq::empty()
    } else if survives_removal(files.last(), full, name) {
        surviving(files.drop_last(), full, name).push(files.last())
    } else {
        surviving(files.drop_last(), full, name)
    }
}

/// Drops from the lockfile the entries of the removed content file `name`
/// in `folder` (see [`survives_removal`]).
pub fn forget_content(lock: &mut Lockfile, game_dir: &str, folder: &str, name: &str)
    ensures
        final(lock).files@ == surviving(old(lock).files@, content_path(game_dir@, folder@, name@), name@),
        final(lock).version == old(lock).version,
        final(lock).instance_id == old(lock).instance_id,
{
    let full = content_file_path(game_dir, folder, name);
    let full_s = replace_char(&chars_of(full.as_str()), '\\', '/');
    let mut kept: Vec<LockfileEntry> = Vec::new();
    let mut i: usize = 0;
    while i < lock.files.len()
        invariant
            i <= lock.files.len(),
            lock.files@ == old(lock).files@,
            lock.version == old(lock).version,
            lock.instance_id == old(lock).instance_id,
            full@ == content_path(game_dir@, folder@, name@),
            full_s@ == slashed(full@),
            kept@ == surviving(lock.files@.take(i as int), full@, name@),
        decreases lock.files.len() - i,
    {
        let f = &lock.files[i];
        let p = replace_char(&chars_of(f.path.as_str()), '\\', '/');
        let same_name = match &f.filename {
            Some(n) => str_eq(n.as_str(), name),
            None => false,
        };
        assert(lock.files@.take(i + 1).drop_last() =~= lock.files@.take(i as int));
        assert(lock.files@.take(i + 1).last() == *f);
        if !eq(&p, &full_s) && !same_name {
            kept.push(f.duplicate());
        }
        i += 1;
    }
    assert(lock.files@.take(lock.files.len() as int) =~= lock.files@);
    lock.files = kept;
}

// ===========================================================================
// Installing
// ===========================================================================

/// Content types whose versions are taken whatever the game version and
/// loader: resource packs and shaders.
pub open spec fn ignores_version(project_type: Seq<char>) -> bool {
    project_type == "resourcepack"@ || project_type == "shader"@
}

/// Folders whose content ignores the game version and loader.
pub open spec fn folder_ignores_version(folder: Seq<char>) -> bool {
    folder == "resourcepacks"@ || folder == "shaderpacks"@
}

pub fn type_ignores_version(project_type: &str) -> (b: bool)
    ensures
        b == ignores_version(project_type@),
{
    str_eq(project_type, "resourcepack") || str_eq(project_type, "shader")
}

pub fn folder_ignores(folder: &str) -> (b: bool)
    ensures
        b == folder_ignores_version(folder@),
{
    str_eq(folder, "resourcepacks") || str_eq(folder, "shaderpacks")
}

/// The loaders a version query filters by: none when the version is
/// ignored or the instance is vanilla, else the instance's loader.
pub open spec fn query_loaders(ignore_version: bool, loader: Seq<char>) -> Seq<Seq<char>> {
    if ignore_version || loader == "vanilla"@ {
        Seq::empty()
    } else {
        seq![loader]
    }
}

/// The game versions a version query filters by: none when the version is
/// ignored, else the instance's.
pub open spec fn query_games(ignore_version: bool, game_version: Seq<char>) -> Seq<Seq<char>> {
    if ignore_version {
        Seq::empty()
    } else {
        seq![game_version]
    }
}

/// The loader and game-version filters of a content version query.
pub fn version_filters(ignore_version: bool, instance: &Instance) -> (r: (Vec<String>, Vec<String>))
    ensures
        svs(r.0@) == query_loaders(ignore_version, instance.loader@),
        svs(r.1@) == query_games(ignore_version, instance.game_version@),
{
    let mut loaders: Vec<String> = Vec::new();
    let mut games: Vec<String> = Vec::new();
    if !(ignore_version || str_eq(instance.loader.as_str(), "vanilla")) {
        loaders.push(instance.loader.clone());
    }
    if !ignore_version {
        games.push(instance.game_version.clone());
    }
    assert(svs(loaders@) =~= query_loaders(ignore_version, instance.loader@));
    assert(svs(games@) =~= query_games(ignore_version, instance.game_version@));
    (loaders, games)
}

/// Why a project of type `detail_type` (titled `title`) cannot be installed
/// as content of `folder` requested as `req_type`: a mod, modpack or plugin
/// whose type is neither the folder's nor the requested one.
pub open spec fn type_refusal(detail_type: Seq<char>, title: Seq<char>, req_type: Seq<char>, folder: Seq<char>) -> Option<Seq<char>> {
    let expected = type_of_folder(folder);
    if detail_type != expected && detail_type != req_type && (detail_type == "mod"@ || detail_type
        == "modpack"@ || detail_type == "plugin"@) {
        Some("'"@ + title + "' is a "@ + detail_type + ", not a "@ + expected)
    } else {
        None
    }
}

/// Refuses a project page whose type cannot go into `folder` (see
/// [`type_refusal`]).
pub fn check_content_type(detail: &ProjectDetail, req_type: &str, folder: &str) -> (r: AppResult<()>)
    ensures
        match type_refusal(detail.project_type@, detail.title@, req_type@, folder@) {
            Some(m) => r matches Err(e) && e.message@ == m,
            None => r is Ok,
        },
{
    let expected = type_for_folder(folder);
    let t = detail.project_type.as_str();
    if !str_eq(t, expected.as_str()) && !str_eq(t, req_type) && (str_eq(t, "mod") || str_eq(t, "modpack")
        || str_eq(t, "plugin")) {
        let mut m = chars_of("'");
        append_str(&mut m, detail.title.as_str());
        append_str(&mut m, "' is a ");
        append_str(&mut m, t);
        append_str(&mut m, ", not a ");
        append_str(&mut m, expected.as_str());
        return Err(AppError::msg(string_of(&m)));
    }
    Ok(())
}

/// The message when no version of content for `folder` is offered.
pub open spec fn no_version_message(folder: Seq<char>, loader: Seq<char>, game_version: Seq<char>) -> Seq<char> {
    if folder_ignores_version(folder) {
        "No "@ + type_of_folder(folder) + " versions published on Modrinth"@
    } else {
        "No matching "@ + type_of_folder(folder) + " version for "@ + loader + " "@ + game_version
    }
}

/// The version to install when none was named: the first one offered.
pub fn pick_content_version(list: Vec<CatalogVersion>, folder: &str, instance: &Instance) -> (r: AppResult<CatalogVersion>)
    ensures
        list@.len() > 0 ==> r == Ok::<CatalogVersion, AppError>(list@[0]),
        list@.len() == 0 ==> (r matches Err(e) && e.message@ == no_version_message(
            folder@,
            instance.loader@,
            instance.game_version@,
        )),
{
    let mut list = list;
    if list.len() > 0 {
        return Ok(list.remove(0));
    }
    let expected = type_for_folder(folder);
    let mut m: Vec<char>;
    if folder_ignores(folder) {
        m = chars_of("No ");
        append_str(&mut m, expected.as_str());
        append_str(&mut m, " versions published on Modrinth");
    } else {
        m = chars_of("No matching ");
        append_str(&mut m, expected.as_str());
        append_str(&mut m, " version for ");
        append_str(&mut m, instance.loader.as_str());
        append_str(&mut m, " ");
        append_str(&mut m, instance.game_version.as_str());
    }
    Err(AppError::msg(string_of(&m)))
}

/// What installing content fetches, copies and records.
pub struct ContentFetch {
    pub url: String,
    pub cached: String,
    pub dest_dir: String,
    pub dest: String,
    pub sha1: Option<String>,
    pub sha512: Option<String>,
    pub lock: LockfileEntry,
    pub result: ContentInstallResult,
}

/// `f` installs `file` of version `v` of project `project_id` into `folder`.
pub open spec fn content_fetch_is(
    f: ContentFetch,
    v: CatalogVersion,
    file: CatalogFile,
    folder: Seq<char>,
    project_id: Seq<char>,
    cache_dir: Seq<char>,
    game_dir: Seq<char>,
) -> bool {
    &&& f.url@ == file.url@
    &&& f.cached@ == join(join(join(join(cache_dir, "content"@), folder), cache_key(file, v.id@)), file.filename@)
    &&& f.dest_dir@ == join(game_dir, folder)
    &&& f.dest@ == content_path(game_dir, folder, file.filename@)
    &&& oview(f.sha1) == oview(file.sha1)
    &&& oview(f.sha512) == oview(file.sha512)
    &&& f.lock.path@ == f.dest@
    &&& oview(f.lock.sha1) == oview(file.sha1)
    &&& oview(f.lock.sha512) == oview(file.sha512)
    &&& f.lock.source@ == "modrinth"@
    &&& oview(f.lock.project_id) == Some(project_id)
    &&& oview(f.lock.version_id) == Some(v.id@)
    &&& oview(f.lock.filename) == Some(file.filename@)
    &&& !f.lock.pinned
    &&& f.lock.enabled
    &&& f.result.path@ == f.dest@
    &&& f.result.filename@ == file.filename@
    &&& f.result.project_type@ == type_of_folder(folder)
}

/// What installing `version` of project `project_id` into `folder` does:
/// its primary file is downloaded into the cache (under its SHA-512, else
/// SHA-1, else the version id), copied into the folder and recorded in the
/// lockfile. A version without files is refused.
pub fn content_fetch_plan(version: &CatalogVersion, folder: &str, project_id: &str, cache_dir: &str, game_dir: &str) -> (r: AppResult<ContentFetch>)
    ensures
        match primary_choice(version.files@) {
            None => r matches Err(e) && e.message@ == "Version has no downloadable files"@,
            Some(file) => r matches Ok(f) && content_fetch_is(f, *version, file, folder@, project_id@, cache_dir@, game_dir@),
        },
{
    let file = match primary_file(version) {
        Ok(f) => f,
        Err(e) => {
            return Err(e);
        },
    };
    let key = file_cache_key(file, version.id.as_str());
    let c1 = path_join_str(&path_join_str(&chars_of(cache_dir), "content"), folder);
    let cached = string_of(&path_join_str(&path_join_str(&c1, key.as_str()), file.filename.as_str()));
    let dest_dir = path_join_str(&chars_of(game_dir), folder);
    let dest = string_of(&path_join_str(&dest_dir, file.filename.as_str()));
    let lock = LockfileEntry {
        path: dest.clone(),
        sha1: copy_opt(&file.sha1),
        sha512: copy_opt(&file.sha512),
        source: lit("modrinth"),
        project_id: Some(lit(project_id)),
        version_id: Some(version.id.clone()),
        filename: Some(file.filename.clone()),
        pinned: false,
        enabled: true,
    };
    let result = ContentInstallResult {
        path: dest.clone(),
        filename: file.filename.clone(),
        project_type: type_for_folder(folder),
    };
    Ok(
        ContentFetch {
            url: file.url.clone(),
            cached,
            dest_dir: string_of(&dest_dir),
            dest,
            sha1: copy_opt(&file.sha1),
            sha512: copy_opt(&file.sha512),
            lock,
            result,
        },
    )
}

// ===========================================================================
// Updates
// ===========================================================================

/// Content that is checked against the catalog: recorded from it, with a
/// project id.
pub open spec fn needs_check(c: InstalledContent) -> bool {
    !(c.source@ == "local"@ || c.project_id is None)
}

/// The catalog query an update check of `item` makes, if any: its project
/// id and the loader and game-version filters.
pub fn update_query(item: &InstalledContent, instance: &Instance) -> (r: Option<(String, Vec<String>, Vec<String>)>)
    ensures
        match r {
            None => !needs_check(*item),
            Some((pid, loaders, games)) => {
                &&& needs_check(*item)
                &&& oview(item.project_id) == Some(pid@)
                &&& svs(loaders@) == query_loaders(ignores_version(item.project_type@), instance.loader@)
                &&& svs(games@) == query_games(ignores_version(item.project_type@), instance.game_version@)
            },
        },
{
    if str_eq(item.source.as_str(), "local") {
        return None;
    }
    match &item.project_id {
        None => None,
        Some(pid) => {
            let ignore = type_ignores_version(item.project_type.as_str());
            let (loaders, games) = version_filters(ignore, instance);
            Some((pid.clone(), loaders, games))
        },
    }
}

/// The version an item currently has, empty when unknown.
pub open spec fn current_version(c: InstalledContent) -> Seq<char> {
    match oview(c.version_id) {
        Some(v) => v,
        None => Seq::empty(),
    }
}

/// The update status of `c` given the versions the catalog offers it
/// (newest first): local content is `local`; with nothing offered it is
/// `ok` when versions are ignored, else `incompatible`; with a newest
/// version other than its own it is `update`, to that version; else `ok`.
pub open spec fn status_of(c: InstalledContent, versions: Seq<CatalogVersion>) -> (Option<Seq<char>>, Seq<char>) {
    if !needs_check(c) {
        (oview(c.update_version_id), "local"@)
    } else if versions.len() == 0 {
        (oview(c.update_version_id), if ignores_version(c.project_type@) {
            "ok"@
        } else {
            "incompatible"@
        })
    } else if versions[0].id@ != current_version(c) {
        (Some(versions[0].id@), "update"@)
    } else {
        (oview(c.update_version_id), "ok"@)
    }
}

/// `b` is `a` with at most its update fields changed.
pub open spec fn same_content(a: InstalledContent, b: InstalledContent) -> bool {
    &&& a.id == b.id
    &&& a.instance_id == b.instance_id
    &&& a.project_type == b.project_type
    &&& a.filename == b.filename
    &&& a.path == b.path
    &&& a.source == b.source
    &&& a.project_id == b.project_id
    &&& a.version_id == b.version_id
    &&& a.sha1 == b.sha1
    &&& a.sha512 == b.sha512
    &&& a.kind == b.kind
}

/// Records the outcome of an update check of `item` (see [`status_of`]);
/// `versions` are what the catalog offered, empty when nothing was asked.
pub fn record_check(item: &mut InstalledContent, versions: &Vec<CatalogVersion>)
    ensures
        same_content(*old(item), *final(item)),
        (oview(final(item).update_version_id), oview(final(item).compat_status)->Some_0) == status_of(*old(item), versions@),
        final(item).compat_status is Some,
{
    let local = str_eq(item.source.as_str(), "local") || item.project_id.is_none();
    if local {
        item.compat_status = Some(lit("local"));
        return;
    }
    if versions.len() == 0 {
        if type_ignores_version(item.project_type.as_str()) {
            item.compat_status = Some(lit("ok"));
        } else {
            item.compat_status = Some(lit("incompatible"));
        }
        return;
    }
    let latest = &versions[0];
    proof {
        if latest.id@.len() == 0 {
            assert(latest.id@ =~= Seq::<char>::empty());
        }
    }
    let same = match &item.version_id {
        Some(v) => str_eq(latest.id.as_str(), v.as_str()),
        None => chars_of(latest.id.as_str()).len() == 0,
    };
    if !same {
        item.update_version_id = Some(latest.id.clone());
        item.compat_status = Some(lit("update"));
    } else {
        item.compat_status = Some(lit("ok"));
    }
}

/// The first listed item with id `id`, if any.
pub open spec fn item_with_id(listed: Seq<InstalledContent>, id: Seq<char>) -> Option<InstalledContent>
    decreases listed.len(),
{
    if listed.len() == 0 {
        None
    } else if listed[0].id@ == id {
        Some(listed[0])
    } else {
        item_with_id(listed.drop_first(), id)
    }
}

/// The install request that applies the update found for content
/// `content_id` of a listing: refused when the item is missing, has no
/// project id, or has no update recorded.
pub fn update_request(listed: &Vec<InstalledContent>, content_id: &str, instance: &Instance) -> (r: AppResult<InstallContentRequest>)
    ensures
        match item_with_id(listed@, content_id@) {
            None => r matches Err(e) && e.message@ == "Content not found"@,
            Some(c) => if c.project_id is None {
                r matches Err(e) && e.message@ == "Local content has no Modrinth project id"@
            } else if c.update_version_id is None {
                r matches Err(e) && e.message@ == "No update available — run Check updates first"@
            } else {
                r matches Ok(q) && q.instance_id@ == instance.id@ && oview(Some(q.project_id)) == oview(
                    c.project_id,
                ) && oview(q.version_id) == oview(c.update_version_id) && q.project_type@
                    == c.project_type@ && oview(q.channel) == Some("stable"@)
            },
        },
{
    let mut i: usize = 0;
    assert(listed@.skip(0) =~= listed@);
    while i < listed.len()
        invariant
            i <= listed.len(),
            item_with_id(listed@, content_id@) == item_with_id(listed@.skip(i as int), content_id@),
        decreases listed.len() - i,
    {
        assert(listed@.skip(i as int)[0] == listed@[i as int]);
        assert(listed@.skip(i as int).drop_first() =~= listed@.skip(i + 1));
        if str_eq(listed[i].id.as_str(), content_id) {
            let c = &listed[i];
            let pid = match &c.project_id {
                Some(p) => p.clone(),
                None => {
                    return Err(AppError::lit("Local content has no Modrinth project id"));
                },
            };
            let vid = match &c.update_version_id {
                Some(v) => v.clone(),
                None => {
                    return Err(AppError::lit("No update available — run Check updates first"));
                },
            };
            return Ok(
                InstallContentRequest {
                    instance_id: instance.id.clone(),
                    project_id: pid,
                    version_id: Some(vid),
                    project_type: c.project_type.clone(),
                    channel: Some(lit("stable")),
                },
            );
        }
        i += 1;
    }
    Err(AppError::lit("Content not found"))
}

// ===========================================================================
// Laws
// ===========================================================================

proof fn lemma_no_colon(folder: Seq<char>)
    requires
        is_content_folder(folder),
    ensures
        !folder.contains(':'),
{
    reveal_strlit("resourcepacks");
    reveal_strlit("shaderpacks");
    reveal_strlit("datapacks");
    if folder.contains(':') {
        let j = choose|j: int| 0 <= j < folder.len() && folder[j] == ':';
        if folder == "resourcepacks"@ {
            assert(folder[j] != ':');
        } else if folder == "shaderpacks"@ {
            assert(folder[j] != ':');
        } else {
            assert(folder[j] != ':');
        }
    }
}

/// The id a listing gives an entry (`{folder}:{name}`) designates that
/// entry for removal: for a content folder and a plain entry name (not
/// empty, no `..`, `/` or `\\`), the id checks back to the same folder and
/// name.
pub proof fn law_content_id_round_trip(folder: Seq<char>, name: Seq<char>)
    requires
        is_content_folder(folder),
        name.len() > 0,
        !contains_seq(name, ".."@),
        !name.contains('/'),
        !name.contains('\\'),
    ensures
        content_target(folder + ":"@ + name) == Ok::<(Seq<char>, Seq<char>), Seq<char>>((folder, name)),
{
    let id = folder + ":"@ + name;
    reveal_strlit(":");
    lemma_no_colon(folder);
    assert(id[folder.len() as int] == ':');
    assert forall|j: int| 0 <= j < folder.len() implies id[j] != ':' by {
        assert(id[j] == folder[j]);
    }
    crate::text::lemma_index_of_unique(id, ':', folder.len() as int);
    assert(id.take(folder.len() as int) =~= folder);
    assert(id.skip(folder.len() as int + 1) =~= name);
}

/// The listing order as a relation.
pub open spec fn content_order() -> spec_fn(InstalledContent, InstalledContent) -> bool {
    |a: InstalledContent, b: InstalledContent| content_le(a, b)
}

proof fn lemma_content_insert_is(s: Seq<InstalledContent>, x: InstalledContent)
    ensures
        content_insert(s, x) == ins(s, x, content_order()),
    decreases s.len(),
{
    if s.len() > 0 {
        lemma_content_insert_is(s.drop_last(), x);
    }
}

proof fn lemma_content_sort_is(s: Seq<InstalledContent>)
    ensures
        content_sort(s) == isort(s, content_order()),
    decreases s.len(),
{
    if s.len() > 0 {
        lemma_content_sort_is(s.drop_last());
        lemma_content_insert_is(content_sort(s.drop_last()), s.last());
    }
}

proof fn lemma_content_order_total()
    ensures
        total_preorder(content_order()),
{
    let le = content_order();
    assert forall|a: InstalledContent, b: InstalledContent| #[trigger] le(a, b) || le(b, a) by {
        lemma_chars_le_total(a.project_type@, b.project_type@);
        lemma_chars_le_total(lower(a.filename@), lower(b.filename@));
    }
    assert forall|a: InstalledContent, b: InstalledContent, c: InstalledContent|
        #[trigger] le(a, b) && #[trigger] le(b, c) implies le(a, c) by {
        let (x, y, z) = (a.project_type@, b.project_type@, c.project_type@);
        if chars_le(x, y) && chars_le(y, z) {
            lemma_chars_le_trans(x, y, z);
        }
        if chars_le(x, y) && chars_le(y, x) {
            lemma_chars_le_antisym(x, y);
        }
        if chars_le(y, z) && chars_le(z, y) {
            lemma_chars_le_antisym(y, z);
        }
        if x == z && chars_le(x, y) && chars_le(y, z) {
            lemma_chars_le_antisym(x, y);
        }
        let (p, q, r) = (lower(a.filename@), lower(b.filename@), lower(c.filename@));
        if chars_le(p, q) && chars_le(q, r) {
            lemma_chars_le_trans(p, q, r);
        }
    }
}

/// A content listing comes out in order — by type, then by file name
/// ignoring ASCII case — and holds exactly the entries it was given.
pub proof fn law_content_listing_sorted(s: Seq<InstalledContent>)
    ensures
        forall|i: int, j: int|
            0 <= i < j < content_sort(s).len() ==> content_le(#[trigger] content_sort(s)[i], #[trigger] content_sort(s)[j]),
        content_sort(s).to_multiset() == s.to_multiset(),
{
    lemma_content_order_total();
    lemma_content_sort_is(s);
    lemma_isort(s, content_order());
    assert forall|i: int, j: int| 0 <= i < j < content_sort(s).len() implies content_le(
        #[trigger] content_sort(s)[i],
        #[trigger] content_sort(s)[j],
    ) by {
        assert(content_order()(content_sort(s)[i], content_sort(s)[j]));
    }
}


/// After removing a content file, no lockfile entry records it any more
/// (by path up to separators or by file name), and every entry that did
/// not record it is kept, in order.
pub proof fn law_removal_forgets(files: Seq<LockfileEntry>, full: Seq<char>, name: Seq<char>)
    ensures
        forall|k: int|
            0 <= k < surviving(files, full, name).len() ==> survives_removal(#[trigger] surviving(files, full, name)[k], full, name),
        surviving(files, full, name) == files.filter(|f: LockfileEntry| survives_removal(f, full, name)),
    decreases files.len(),
{
    reveal_with_fuel(Seq::filter, 1);
    if files.len() > 0 {
        let d = files.drop_last();
        law_removal_forgets(d, full, name);
        let sd = surviving(d, full, name);
        if survives_removal(files.last(), full, name) {
            assert forall|k: int| 0 <= k < surviving(files, full, name).len() implies survives_removal(
                #[trigger] surviving(files, full, name)[k],
                full,
                name,
            ) by {
                if k < sd.len() {
                    assert(surviving(files, full, name)[k] == sd[k]);
                }
            }
        }
    }
}


proof fn lemma_kept_remove(scans: Seq<ContentScan>, j: int)
    requires
        0 <= j < scans.len(),
        scan_kept(scans[j]),
    ensures
        kept_scans(scans.take(j)).len() < kept_scans(scans).len(),
        kept_scans(scans)[kept_scans(scans.take(j)).len() as int] == scans[j],
        kept_scans(scans.remove(j)) == kept_scans(scans).remove(kept_scans(scans.take(j)).len() as int),
    decreases scans.len(),
{
    let d = scans.drop_last();
    if j == scans.len() - 1 {
        assert(scans.remove(j) =~= d);
        assert(scans.take(j) =~= d);
        assert(kept_scans(scans).remove(kept_scans(d).len() as int) =~= kept_scans(d));
    } else {
        lemma_kept_remove(d, j);
        assert(d.take(j) =~= scans.take(j));
        let r = scans.remove(j);
        assert(r.drop_last() =~= d.remove(j));
        assert(r.last() == scans.last());
        let idx = kept_scans(scans.take(j)).len() as int;
        if scan_kept(scans.last()) {
            assert(kept_scans(d).push(scans.last()).remove(idx) =~= kept_scans(d).remove(idx).push(
                scans.last(),
            ));
        }
    }
}

proof fn lemma_kept_in(scans: Seq<ContentScan>, k: int)
    requires
        0 <= k < kept_scans(scans).len(),
    ensures
        exists|m: int| 0 <= m < scans.len() && scans[m] == kept_scans(scans)[k],
    decreases scans.len(),
{
    let d = scans.drop_last();
    if k < kept_scans(d).len() {
        lemma_kept_in(d, k);
        let m = choose|m: int| 0 <= m < d.len() && d[m] == kept_scans(d)[k];
        assert(scans[m] == d[m]);
    } else {
        assert(scans[scans.len() - 1] == scans.last());
    }
}

proof fn lemma_id_injective(f1: Seq<char>, n1: Seq<char>, f2: Seq<char>, n2: Seq<char>)
    requires
        !f1.contains(':'),
        !f2.contains(':'),
        f1 + ":"@ + n1 == f2 + ":"@ + n2,
    ensures
        f1 == f2,
        n1 == n2,
{
    reveal_strlit(":");
    let a = f1 + ":"@ + n1;
    let b = f2 + ":"@ + n2;
    if f1.len() < f2.len() {
        assert(a[f1.len() as int] == ':');
        assert(b[f1.len() as int] == f2[f1.len() as int]);
    } else if f2.len() < f1.len() {
        assert(b[f2.len() as int] == ':');
        assert(a[f2.len() as int] == f1[f2.len() as int]);
    }
    assert(a.take(f1.len() as int) =~= f1);
    assert(b.take(f2.len() as int) =~= f2);
    assert(a.skip(f1.len() as int + 1) =~= n1);
    assert(b.skip(f2.len() as int + 1) =~= n2);
}

/// Taking a listed entry off its folder takes exactly its item, with id
/// `{folder}:{name}`, off the listing: every other entry is listed as
/// before (same id, file name, type, path and kind), in the same order,
/// whatever the lockfile then holds. Entry names are distinct within a
/// folder, as on disk.
pub proof fn law_removal_unlists(
    instance_id: Seq<char>,
    game_dir: Seq<char>,
    scans: Seq<ContentScan>,
    j: int,
    files_before: Seq<LockfileEntry>,
    files_after: Seq<LockfileEntry>,
    before: Seq<InstalledContent>,
    after: Seq<InstalledContent>,
)
    requires
        0 <= j < scans.len(),
        scan_kept(scans[j]),
        forall|k: int| 0 <= k < scans.len() ==> is_content_folder(#[trigger] scans[k].folder@),
        forall|k: int|
            0 <= k < scans.len() && k != j ==> !(#[trigger] scans[k].folder@ == scans[j].folder@
                && scans[k].name@ == scans[j].name@),
        listing_items(before, instance_id, game_dir, kept_scans(scans), files_before),
        listing_items(after, instance_id, game_dir, kept_scans(scans.remove(j)), files_after),
    ensures
        after.len() + 1 == before.len(),
        before[kept_scans(scans.take(j)).len() as int].id@ == scans[j].folder@ + ":"@ + scans[j].name@,
        forall|k: int|
            0 <= k < after.len() ==> {
                let b = before[if k < kept_scans(scans.take(j)).len() {
                    k
                } else {
                    k + 1
                }];
                &&& (#[trigger] after[k]).id@ == b.id@
                &&& after[k].filename@ == b.filename@
                &&& after[k].project_type@ == b.project_type@
                &&& after[k].path@ == b.path@
                &&& after[k].kind@ == b.kind@
            },
        forall|k: int| 0 <= k < after.len() ==> (#[trigger] after[k]).id@ != scans[j].folder@ + ":"@ + scans[j].name@,
{
    lemma_kept_remove(scans, j);
    let idx = kept_scans(scans.take(j)).len() as int;
    let kb = kept_scans(scans);
    let ka = kept_scans(scans.remove(j));
    assert(item_matches(before[idx], instance_id, game_dir, kb[idx], hit_of(files_before, game_dir, kb[idx])));
    assert forall|k: int| 0 <= k < after.len() implies {
        let b = before[if k < idx {
            k
        } else {
            k + 1
        }];
        &&& (#[trigger] after[k]).id@ == b.id@
        &&& after[k].filename@ == b.filename@
        &&& after[k].project_type@ == b.project_type@
        &&& after[k].path@ == b.path@
        &&& after[k].kind@ == b.kind@
    } by {
        let k2 = if k < idx {
            k
        } else {
            k + 1
        };
        assert(ka[k] == kb[k2]);
        assert(item_matches(after[k], instance_id, game_dir, ka[k], hit_of(files_after, game_dir, ka[k])));
        assert(item_matches(before[k2], instance_id, game_dir, kb[k2], hit_of(files_before, game_dir, kb[k2])));
    }
    assert forall|k: int| 0 <= k < after.len() implies (#[trigger] after[k]).id@ != scans[j].folder@ + ":"@
        + scans[j].name@ by {
        assert(item_matches(after[k], instance_id, game_dir, ka[k], hit_of(files_after, game_dir, ka[k])));
        lemma_kept_in(scans.remove(j), k);
        let m = choose|m: int| 0 <= m < scans.remove(j).len() && scans.remove(j)[m] == ka[k];
        let m2 = if m < j {
            m
        } else {
            m + 1
        };
        assert(scans.remove(j)[m] == scans[m2]);
        lemma_no_colon(scans[m2].folder@);
        lemma_no_colon(scans[j].folder@);
        if after[k].id@ == scans[j].folder@ + ":"@ + scans[j].name@ {
            lemma_id_injective(scans[m2].folder@, scans[m2].name@, scans[j].folder@, scans[j].name@);
        }
    }
}

} // verus!
