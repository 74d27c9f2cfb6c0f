//! Modrinth `.mrpack` packs (format version 1): index records, safe pack
//! paths, loader detection, and the decisions of importing and exporting.
use vstd::prelude::*;
use crate::error::{AppError, AppResult};
use crate::paths::{join, parts, path_join, path_parts};
use crate::resolve::{assoc_get, lookup, pairs_view};
use crate::text::{
    append, append_str, chars_of, eq_str, join as join_parts, join_str, lit, lower, oview, string_of,
    to_lower, views, decimal, decimal_of, trim, trimmed, str_eq, copy_opt, starts_with, ends_with,
    has_prefix, has_prefix_str, replace, replace_char, slice,
};
use crate::instances::{Instance, NewInstance};
use crate::resolve::LockfileEntry;
use crate::paths::{file_name, extension, path_file_name, path_extension, path_join_str};
use crate::mods::{InstalledMod, display_of, display_from_filename};

verus! {

/// A pack's `modrinth.index.json`.
pub struct MrpackIndex {
    pub format_version: u32,
    pub game: String,
    pub version_id: String,
    pub name: String,
    pub summary: Option<String>,
    pub files: Vec<MrpackFile>,
    pub dependencies: Vec<(String, String)>,
}

/// One downloadable file of a pack.
pub struct MrpackFile {
    pub path: String,
    pub hashes: Vec<(String, String)>,
    pub downloads: Vec<String>,
    pub file_size: u64,
    pub env: Option<MrpackEnv>,
}

/// Where a pack file is needed.
pub struct MrpackEnv {
    pub client: String,
    pub server: String,
}

/// A request to import a pack file.
pub struct ImportMrpackRequest {
    pub path: String,
    pub instance_id: Option<String>,
    pub name: Option<String>,
}

/// A request to export an instance as a pack.
pub struct ExportMrpackRequest {
    pub instance_id: String,
    pub path: String,
    pub name: Option<String>,
    pub version_id: Option<String>,
    pub summary: Option<String>,
}

/// A request to install a catalog modpack as a new instance.
pub struct InstallModpackRequest {
    pub project_id: String,
    pub version_id: Option<String>,
    pub name: Option<String>,
    pub channel: Option<String>,
}

/// A pack index is accepted when it is format version 1 for Minecraft.
pub fn check_index(index: &MrpackIndex) -> (r: AppResult<()>)
    ensures
        r is Ok <==> index.format_version == 1 && index.game@ == "minecraft"@,
        index.format_version != 1 ==> (r matches Err(e) && e.message@
            == "Unsupported mrpack formatVersion "@ + decimal(index.format_version as nat)
            + " (expected 1)"@),
        index.format_version == 1 && index.game@ != "minecraft"@ ==> (r matches Err(e) && e.message@
            == "Unsupported mrpack game '"@ + index.game@ + "'"@),
{
    if index.format_version != 1 {
        let mut m = chars_of("Unsupported mrpack formatVersion ");
        append(&mut m, &decimal_of(index.format_version as u64));
        append_str(&mut m, " (expected 1)");
        return Err(AppError::msg(string_of(&m)));
    }
    if !eq_str(&chars_of(index.game.as_str()), "minecraft") {
        let mut m = chars_of("Unsupported mrpack game '");
        append_str(&mut m, index.game.as_str());
        append_str(&mut m, "'");
        return Err(AppError::msg(string_of(&m)));
    }
    Ok(())
}

/// An ASCII letter (a drive letter).
pub open spec fn ascii_letter(c: char) -> bool {
    ('a' as u32 <= c as u32 <= 'z' as u32) || ('A' as u32 <= c as u32 <= 'Z' as u32)
}

/// Text that starts with a drive prefix such as `C:`.
pub open spec fn drive_prefixed(s: Seq<char>) -> bool {
    s.len() >= 2 && ascii_letter(s[0]) && s[1] == ':'
}

/// An absolute path: rooted at `/`, or a drive with its root (`C:\`, `C:/`).
pub open spec fn absolute_path(raw: Seq<char>) -> bool {
    (raw.len() > 0 && raw[0] == '/') || (drive_prefixed(raw) && raw.len() >= 3 && (raw[2] == '/'
        || raw[2] == '\\'))
}

/// The components of a pack path, with `\` read as a separator as `/` is.
pub open spec fn pack_parts(raw: Seq<char>) -> Seq<Seq<char>> {
    parts(replace(raw, seq!['\\'], seq!['/']))
}

/// The relative path a pack entry may be written to: its name components
/// (separated by `/` or `\`) joined with `/`. Absolute paths, paths rooted
/// at `\`, paths with a `..` component or a drive prefix, and empty paths
/// are refused.
pub open spec fn rel_path(raw: Seq<char>) -> Result<Seq<char>, Seq<char>> {
    let ps = pack_parts(raw);
    if absolute_path(raw) {
        Err("Unsafe absolute pack path: "@ + raw)
    } else if (raw.len() > 0 && raw[0] == '\\') || ps.contains(".."@) || (ps.len() > 0
        && drive_prefixed(ps[0])) {
        Err("Unsafe pack path: "@ + raw)
    } else if ps.len() == 0 {
        Err("Empty pack path: "@ + raw)
    } else {
        Ok(join_parts(ps, "/"@))
    }
}

fn is_drive_prefixed(s: &Vec<char>) -> (b: bool)
    ensures
        b == drive_prefixed(s@),
{
    if s.len() < 2 {
        return false;
    }
    let c = s[0] as u32;
    (('a' as u32 <= c && c <= 'z' as u32) || ('A' as u32 <= c && c <= 'Z' as u32)) && s[1] == ':'
}

pub fn safe_rel_path(raw: &str) -> (r: AppResult<String>)
    ensures
        match r {
            Ok(p) => rel_path(raw@) == Ok::<Seq<char>, Seq<char>>(p@),
            Err(e) => rel_path(raw@) == Err::<Seq<char>, Seq<char>>(e.message@),
        },
{
    let rv = chars_of(raw);
    let absolute = (rv.len() > 0 && rv[0] == '/') || (is_drive_prefixed(&rv) && rv.len() >= 3 && (
    rv[2] == '/' || rv[2] == '\\'));
    if absolute {
        let mut m = chars_of("Unsafe absolute pack path: ");
        append(&mut m, &rv);
        return Err(AppError::msg(string_of(&m)));
    }
    let norm = replace_char(&rv, '\\', '/');
    let ps = path_parts(&norm);
    let ghost pv = views(ps@);
    assert(pv == pack_parts(raw@));
    let mut unsafe_path = rv.len() > 0 && rv[0] == '\\';
    let mut i: usize = 0;
    while i < ps.len()
        invariant
            i <= ps.len(),
            pv == views(ps@),
            unsafe_path == ((rv@.len() > 0 && rv@[0] == '\\') || exists|j: int| 0 <= j < i && pv[j] == ".."@),
        decreases ps.len() - i,
    {
        let dots = eq_str(&ps[i], "..");
        assert(pv[i as int] == ps@[i as int]@);
        if dots {
            assert(pv[i as int] == ".."@);
            unsafe_path = true;
        }
        assert(dots == (pv[i as int] == ".."@));
        i += 1;
    }
    proof {
        if exists|j: int| 0 <= j < pv.len() && pv[j] == ".."@ {
            let j = choose|j: int| 0 <= j < pv.len() && pv[j] == ".."@;
            assert(pv.contains(pv[j]));
        }
        if pv.contains(".."@) {
            let j = choose|j: int| 0 <= j < pv.len() && pv[j] == ".."@;
            assert(pv[j] == ".."@);
        }
    }
    if ps.len() > 0 && is_drive_prefixed(&ps[0]) {
        unsafe_path = true;
    }
    if unsafe_path {
        let mut m = chars_of("Unsafe pack path: ");
        append(&mut m, &rv);
        return Err(AppError::msg(string_of(&m)));
    }
    if ps.len() == 0 {
        let mut m = chars_of("Empty pack path: ");
        append(&mut m, &rv);
        return Err(AppError::msg(string_of(&m)));
    }
    Ok(string_of(&join_str(&ps, "/")))
}

/// The loader, loader version and game version a pack depends on: the
/// first of Fabric, Quilt, NeoForge and Forge it names, else vanilla.
pub open spec fn pack_loader(deps: Seq<(String, String)>) -> Result<
    (Seq<char>, Option<Seq<char>>, Seq<char>),
    Seq<char>,
> {
    let d = pairs_view(deps);
    match lookup(d, "minecraft"@) {
        None => Err("mrpack is missing dependencies.minecraft"@),
        Some(game) => if lookup(d, "fabric-loader"@) is Some {
            Ok(("fabric"@, lookup(d, "fabric-loader"@), game))
        } else if lookup(d, "quilt-loader"@) is Some {
            Ok(("quilt"@, lookup(d, "quilt-loader"@), game))
        } else if lookup(d, "neoforge"@) is Some {
            Ok(("neoforge"@, lookup(d, "neoforge"@), game))
        } else if lookup(d, "forge"@) is Some {
            Ok(("forge"@, lookup(d, "forge"@), game))
        } else {
            Ok(("vanilla"@, None, game))
        },
    }
}

pub fn loader_from_deps(deps: &[(String, String)]) -> (r: AppResult<(String, Option<String>, String)>)
    ensures
        match r {
            Ok((l, v, g)) => pack_loader(deps@) == Ok::<
                (Seq<char>, Option<Seq<char>>, Seq<char>),
                Seq<char>,
            >((l@, oview(v), g@)),
            Err(e) => pack_loader(deps@) == Err::<
                (Seq<char>, Option<Seq<char>>, Seq<char>),
                Seq<char>,
            >(e.message@),
        },
{
    let game = match assoc_get(deps, "minecraft") {
        Some(g) => g,
        None => {
            return Err(AppError::lit("mrpack is missing dependencies.minecraft"));
        },
    };
    let fabric = assoc_get(deps, "fabric-loader");
    if fabric.is_some() {
        return Ok((lit("fabric"), fabric, game));
    }
    let quilt = assoc_get(deps, "quilt-loader");
    if quilt.is_some() {
        return Ok((lit("quilt"), quilt, game));
    }
    let neo = assoc_get(deps, "neoforge");
    if neo.is_some() {
        return Ok((lit("neoforge"), neo, game));
    }
    let forge = assoc_get(deps, "forge");
    if forge.is_some() {
        return Ok((lit("forge"), forge, game));
    }
    Ok((lit("vanilla"), None, game))
}

/// A pack file marked client-`unsupported` (any letter case) is skipped.
pub open spec fn skips_client(file: &MrpackFile) -> bool {
    match file.env {
        Some(e) => lower(e.client@) == lower("unsupported"@),
        None => false,
    }
}

pub fn env_skips_client(file: &MrpackFile) -> (b: bool)
    ensures
        b == skips_client(file),
{
    match &file.env {
        Some(e) => {
            let a = to_lower(&chars_of(e.client.as_str()));
            let b = to_lower(&chars_of("unsupported"));
            crate::text::eq(&a, &b)
        },
        None => false,
    }
}

// ===========================================================================
// Import
// ===========================================================================

/// How an import treats the instance it was asked to fill.
pub enum ImportInto {
    /// Use the instance as it is.
    Keep,
    /// Switch the vanilla instance to the pack's loader first.
    Upgrade,
}

/// Whether a pack fits an existing instance: the game versions must match,
/// and the loaders too unless the instance is vanilla (then it is switched
/// to the pack's loader).
pub fn import_target(existing: &Instance, loader: &str, game_version: &str) -> (r: AppResult<ImportInto>)
    ensures
        existing.game_version@ != game_version@ ==> (r matches Err(e) && e.message@
            == "Pack targets Minecraft "@ + game_version@ + ", instance is "@ + existing.game_version@),
        existing.game_version@ == game_version@ && existing.loader@ != loader@ && existing.loader@
            != "vanilla"@ ==> (r matches Err(e) && e.message@ == "Pack targets "@ + loader@
            + ", instance is "@ + existing.loader@),
        existing.game_version@ == game_version@ && existing.loader@ == "vanilla"@ && loader@
            != "vanilla"@ ==> r matches Ok(ImportInto::Upgrade),
        existing.game_version@ == game_version@ && (existing.loader@ == loader@) ==> r matches Ok(
            ImportInto::Keep,
        ),
{
    if !str_eq(existing.game_version.as_str(), game_version) {
        let mut m = chars_of("Pack targets Minecraft ");
        append_str(&mut m, game_version);
        append_str(&mut m, ", instance is ");
        append_str(&mut m, existing.game_version.as_str());
        return Err(AppError::msg(string_of(&m)));
    }
    let same = str_eq(existing.loader.as_str(), loader);
    let vanilla = str_eq(existing.loader.as_str(), "vanilla");
    if !same && !vanilla {
        let mut m = chars_of("Pack targets ");
        append_str(&mut m, loader);
        append_str(&mut m, ", instance is ");
        append_str(&mut m, existing.loader.as_str());
        return Err(AppError::msg(string_of(&m)));
    }
    if vanilla && !str_eq(loader, "vanilla") {
        Ok(ImportInto::Upgrade)
    } else {
        Ok(ImportInto::Keep)
    }
}

/// The name of a new instance made from a pack: the requested name when it
/// is not blank, else the pack's.
pub open spec fn pack_name_of(requested: Option<Seq<char>>, pack: Seq<char>) -> Seq<char> {
    match requested {
        Some(n) => if trim(n).len() > 0 {
            n
        } else {
            pack
        },
        None => pack,
    }
}

/// The instance an import creates: the pack's loader, versions and name,
/// kept open after launch, everything else left to defaults.
pub fn pack_new_instance(
    requested_name: &Option<String>,
    pack_name: &str,
    loader: &str,
    game_version: &str,
    loader_version: &Option<String>,
) -> (r: NewInstance)
    ensures
        r.name@ == pack_name_of(oview(*requested_name), pack_name@),
        r.loader@ == loader@,
        r.game_version@ == game_version@,
        r.loader_version == *loader_version,
        r.java_path is None,
        r.memory_mb is None,
        r.jvm_args is None,
        r.keep_open == Some(true),
{
    let name = match requested_name {
        Some(n) => if trimmed(&chars_of(n.as_str())).len() > 0 {
            n.clone()
        } else {
            lit(pack_name)
        },
        None => lit(pack_name),
    };
    NewInstance {
        name,
        loader: lit(loader),
        game_version: lit(game_version),
        loader_version: copy_opt(loader_version),
        java_path: None,
        memory_mb: None,
        jvm_args: None,
        keep_open: Some(true),
    }
}

/// An absolute web address.
pub open spec fn is_web(u: Seq<char>) -> bool {
    starts_with(u, "https://"@) || starts_with(u, "http://"@)
}

/// Address `i` is the first web address of a pack file.
pub open spec fn first_web_at(ds: Seq<String>, i: int) -> bool {
    &&& 0 <= i < ds.len()
    &&& is_web(ds[i]@)
    &&& forall|j: int| 0 <= j < i ==> !is_web(#[trigger] ds[j]@)
}

/// A pack file has some web address.
pub open spec fn has_web(ds: Seq<String>) -> bool {
    exists|i: int| 0 <= i < ds.len() && is_web(#[trigger] ds[i]@)
}

/// A digest of a pack file: its SHA-512, else its SHA-1.
pub open spec fn pack_digest(file: &MrpackFile) -> Option<Seq<char>> {
    let hs = crate::resolve::pairs_view(file.hashes@);
    match crate::resolve::lookup(hs, "sha512"@) {
        Some(h) => Some(h),
        None => crate::resolve::lookup(hs, "sha1"@),
    }
}

/// The first 64 characters of `s` (all of it when shorter).
pub open spec fn first_64(s: Seq<char>) -> Seq<char> {
    if s.len() > 64 {
        s.take(64)
    } else {
        s
    }
}

/// Where a pack file is cached: `{cache_dir}/mrpack/{first 64 characters of
/// its digest}/{its file name}`.
pub open spec fn pack_cache_place(cache_dir: Seq<char>, digest: Seq<char>, rel: Seq<char>) -> Seq<char> {
    join(
        join(join(cache_dir, "mrpack"@), first_64(digest)),
        match file_name(rel) {
            Some(f) => f,
            None => Seq::empty(),
        },
    )
}

/// Where a pack file goes and how it is fetched and recorded.
pub struct PackFilePlan {
    pub rel: String,
    pub dest: String,
    pub cached: String,
    pub url: String,
    pub sha1: Option<String>,
    pub sha512: Option<String>,
    pub is_mod: bool,
    pub mod_filename: String,
    pub mod_display: String,
    pub project_id: String,
    pub lock: LockfileEntry,
}

/// A pack file counts as a mod when it lies under `mods` or is a `.jar`.
pub open spec fn pack_is_mod(rel: Seq<char>) -> bool {
    (crate::paths::parts(rel).len() > 0 && crate::paths::parts(rel)[0] == "mods"@) || match extension(
        rel,
    ) {
        Some(e) => lower(e) == lower("jar"@),
        None => false,
    }
}

/// What the plan of pack file `file` holds (see [`pack_file_plan`]).
pub open spec fn plan_is(p: PackFilePlan, file: &MrpackFile, game_dir: Seq<char>, cache_dir: Seq<char>) -> bool {
    &&& rel_path(file.path@) == Ok::<Seq<char>, Seq<char>>(p.rel@)
    &&& p.dest@ == crate::paths::join(game_dir, p.rel@)
    &&& oview(p.sha1) == crate::resolve::lookup(crate::resolve::pairs_view(file.hashes@), "sha1"@)
    &&& oview(p.sha512) == crate::resolve::lookup(crate::resolve::pairs_view(file.hashes@), "sha512"@)
    &&& is_web(p.url@)
    &&& p.is_mod == pack_is_mod(p.rel@)
    &&& p.project_id@ == "mrpack:"@ + replace(p.rel@, seq!['\\'], seq!['/'])
    &&& p.lock.path@ == p.dest@
    &&& oview(p.lock.sha1) == oview(p.sha1)
    &&& oview(p.lock.sha512) == oview(p.sha512)
    &&& p.lock.source@ == "modrinth"@
    &&& oview(p.lock.project_id) == Some(p.project_id@)
    &&& p.lock.version_id is None
    &&& oview(p.lock.filename) == file_name(p.rel@)
    &&& !p.lock.pinned
    &&& p.lock.enabled
    &&& p.mod_filename@ == match file_name(p.rel@) {
        Some(f) => f,
        None => "mod.jar"@,
    }
    &&& p.mod_display@ == display_of(p.mod_filename@)
    &&& exists|i: int| first_web_at(file.downloads@, i) && p.url@ == file.downloads@[i]@
    &&& pack_digest(file) is Some
    &&& p.cached@ == pack_cache_place(cache_dir, pack_digest(file)->0, p.rel@)
}

/// A pack file is skipped on clients, or has everything a plan needs: a
/// safe path, a digest and a web address.
pub open spec fn plannable(file: &MrpackFile) -> bool {
    skips_client(file) || (rel_path(file.path@) is Ok && pack_digest(file) is Some && has_web(
        file.downloads@,
    ))
}

/// Why a pack file that is not plannable is refused.
pub open spec fn plan_refusal(file: &MrpackFile) -> Seq<char> {
    match rel_path(file.path@) {
        Err(m) => m,
        Ok(_) => if pack_digest(file) is None {
            "Pack file "@ + file.path@ + " is missing sha1/sha512"@
        } else {
            "No download URL for "@ + file.path@
        },
    }
}

/// The files of a pack that clients install, in order.
pub open spec fn client_files(files: Seq<MrpackFile>) -> Seq<MrpackFile>
    decreases files.len(),
{
    if files.len() == 0 {
        Seq::empty()
    } else {
        client_files(files.drop_last()) + if skips_client(&files.last()) {
            Seq::<MrpackFile>::empty()
        } else {
            seq![files.last()]
        }
    }
}

/// The plan for one pack file, or none when the pack marks it unsupported
/// on clients: its safe relative path under the game folder, a cache place
/// keyed by its SHA-512 (else SHA-1, at most 64 characters), its first web
/// address, and its lockfile entry under a `mrpack:` project id. A file
/// without either digest or without a web address is refused.
pub fn pack_file_plan(file: &MrpackFile, game_dir: &str, cache_dir: &str) -> (r: AppResult<Option<PackFilePlan>>)
    ensures
        skips_client(file) ==> r matches Ok(None),
        !skips_client(file) && rel_path(file.path@) is Err ==> (r matches Err(e) && Err::<Seq<char>, Seq<char>>(e.message@) == rel_path(file.path@)),
        !skips_client(file) && rel_path(file.path@) is Ok && pack_digest(file) is None ==> (r matches Err(e)
            && e.message@ == "Pack file "@ + file.path@ + " is missing sha1/sha512"@),
        !skips_client(file) && rel_path(file.path@) is Ok && pack_digest(file) is Some && !has_web(
            file.downloads@,
        ) ==> (r matches Err(e) && e.message@ == "No download URL for "@ + file.path@),
        !skips_client(file) && rel_path(file.path@) is Ok && pack_digest(file) is Some && has_web(
            file.downloads@,
        ) ==> r matches Ok(Some(_)),
        r matches Ok(Some(p)) ==> plan_is(p, file, game_dir@, cache_dir@),
{
    if env_skips_client(file) {
        return Ok(None);
    }
    let rel = match safe_rel_path(file.path.as_str()) {
        Ok(r) => r,
        Err(e) => {
            return Err(e);
        },
    };
    let relv = chars_of(rel.as_str());
    let dest = string_of(&crate::paths::path_join(&chars_of(game_dir), &relv));
    let sha1 = crate::resolve::assoc_get(file.hashes.as_slice(), "sha1");
    let sha512 = crate::resolve::assoc_get(file.hashes.as_slice(), "sha512");
    if sha1.is_none() && sha512.is_none() {
        let mut m = chars_of("Pack file ");
        append_str(&mut m, file.path.as_str());
        append_str(&mut m, " is missing sha1/sha512");
        return Err(AppError::msg(string_of(&m)));
    }
    let mut url: Option<String> = None;
    let mut i: usize = 0;
    while i < file.downloads.len() && url.is_none()
        invariant
            i <= file.downloads.len(),
            url matches Some(u) ==> i > 0 && first_web_at(file.downloads@, i - 1) && u@
                == file.downloads@[i - 1]@,
            url is None ==> forall|j: int| 0 <= j < i ==> !is_web(#[trigger] file.downloads@[j]@),
        decreases file.downloads.len() - i,
    {
        let d = chars_of(file.downloads[i].as_str());
        if has_prefix_str(&d, "https://") || has_prefix_str(&d, "http://") {
            url = Some(file.downloads[i].clone());
        }
        i += 1;
    }
    let url = match url {
        Some(u) => u,
        None => {
            assert(!has_web(file.downloads@));
            let mut m = chars_of("No download URL for ");
            append_str(&mut m, file.path.as_str());
            return Err(AppError::msg(string_of(&m)));
        },
    };
    let key = match &sha512 {
        Some(h) => chars_of(h.as_str()),
        None => match &sha1 {
            Some(h) => chars_of(h.as_str()),
            None => chars_of(file.path.as_str()),
        },
    };
    assert(key@ == pack_digest(file)->0);
    let key = if key.len() > 64 {
        slice(&key, 0, 64)
    } else {
        key
    };
    assert(key@ =~= first_64(pack_digest(file)->0));
    let fname = path_file_name(&relv);
    let leaf = match &fname {
        Some(f) => crate::text::copy(f),
        None => Vec::new(),
    };
    let cached_dir = crate::paths::path_join(&path_join_str(&chars_of(cache_dir), "mrpack"), &key);
    let cached = string_of(&crate::paths::path_join(&cached_dir, &leaf));
    let ps = crate::paths::path_parts(&relv);
    let under_mods = ps.len() > 0 && eq_str(&ps[0], "mods");
    let is_jar = match path_extension(&relv) {
        Some(e) => crate::text::eq(&to_lower(&e), &to_lower(&chars_of("jar"))),
        None => false,
    };
    let is_mod = under_mods || is_jar;
    let mut pid = chars_of("mrpack:");
    append(&mut pid, &replace_char(&relv, '\\', '/'));
    let pid = string_of(&pid);
    let mod_filename = match &fname {
        Some(f) => string_of(f),
        None => lit("mod.jar"),
    };
    let mod_display = display_from_filename(mod_filename.as_str());
    let lock = LockfileEntry {
        path: dest.clone(),
        sha1: copy_opt(&sha1),
        sha512: copy_opt(&sha512),
        source: lit("modrinth"),
        project_id: Some(pid.clone()),
        version_id: None,
        filename: match &fname {
            Some(f) => Some(string_of(f)),
            None => None,
        },
        pinned: false,
        enabled: true,
    };
    Ok(
        Some(
            PackFilePlan {
                rel,
                dest,
                cached,
                url,
                sha1,
                sha512,
                is_mod,
                mod_filename,
                mod_display,
                project_id: pid,
                lock,
            },
        ),
    )
}

/// The plans of a pack's files, in order, for every file clients install
/// (see [`pack_file_plan`]); refused at the first file that cannot be
/// planned, with that file's refusal. The number of plans is the number of
/// files an import installs.
pub fn pack_plans(files: &Vec<MrpackFile>, game_dir: &str, cache_dir: &str) -> (r: AppResult<Vec<PackFilePlan>>)
    ensures
        r is Ok <==> forall|k: int| 0 <= k < files.len() ==> plannable(&#[trigger] files@[k]),
        r matches Ok(ps) ==> ps.len() == client_files(files@).len() && forall|j: int|
            0 <= j < ps.len() ==> plan_is(#[trigger] ps@[j], &client_files(files@)[j], game_dir@, cache_dir@),
        r matches Err(e) ==> exists|k: int|
            0 <= k < files.len() && !plannable(&files@[k]) && (forall|j: int| 0 <= j < k ==> plannable(&#[trigger] files@[j]))
                && e.message@ == plan_refusal(&files@[k]),
{
    let mut out: Vec<PackFilePlan> = Vec::new();
    let mut i: usize = 0;
    while i < files.len()
        invariant
            i <= files.len(),
            forall|j: int| 0 <= j < i ==> plannable(&#[trigger] files@[j]),
            out.len() == client_files(files@.take(i as int)).len(),
            forall|j: int|
                0 <= j < out.len() ==> plan_is(#[trigger] out@[j], &client_files(files@.take(i as int))[j], game_dir@, cache_dir@),
        decreases files.len() - i,
    {
        let ghost before = client_files(files@.take(i as int));
        assert(files@.take(i + 1).drop_last() =~= files@.take(i as int));
        assert(files@.take(i + 1).last() == files@[i as int]);
        let f = &files[i];
        match pack_file_plan(f, game_dir, cache_dir) {
            Ok(None) => {
                assert(skips_client(f)) by {
                    if !skips_client(f) {
                        if rel_path(f.path@) is Ok && pack_digest(f) is Some && has_web(f.downloads@) {
                        }
                    }
                }
                assert(client_files(files@.take(i + 1)) =~= before);
            },
            Ok(Some(p)) => {
                assert(!skips_client(f));
                out.push(p);
                assert(client_files(files@.take(i + 1)) =~= before.push(files@[i as int]));
                assert forall|j: int| 0 <= j < out.len() implies plan_is(
                    #[trigger] out@[j],
                    &client_files(files@.take(i + 1))[j],
                    game_dir@,
                    cache_dir@,
                ) by {
                    if j < out.len() - 1 {
                        assert(client_files(files@.take(i + 1))[j] == before[j]);
                    }
                }
            },
            Err(e) => {
                assert(!plannable(f) && e.message@ == plan_refusal(f));
                return Err(e);
            },
        }
        i += 1;
    }
    assert(files@.take(files.len() as int) =~= files@);
    Ok(out)
}

/// Where an override entry of a pack is written: entries under `prefix`
/// (folders and the bare prefix aside) go to their safe relative path
/// under the game folder; an unsafe path is refused.
pub fn override_target(name: &str, prefix: &str, game_dir: &str) -> (r: AppResult<Option<String>>)
    ensures
        !starts_with(name@, prefix@) ==> r matches Ok(None),
        starts_with(name@, prefix@) && (name@.len() == prefix@.len() || ends_with(name@, seq!['/']))
            ==> r matches Ok(None),
        starts_with(name@, prefix@) && name@.len() > prefix@.len() && !ends_with(name@, seq!['/'])
            ==> match rel_path(name@.skip(prefix@.len() as int)) {
            Ok(rel) => r matches Ok(Some(d)) && d@ == crate::paths::join(game_dir@, rel),
            Err(m) => r matches Err(e) && e.message@ == m,
        },
{
    let n = chars_of(name);
    let p = chars_of(prefix);
    if !has_prefix(&n, &p) {
        return Ok(None);
    }
    let slash = vec!['/'];
    assert(slash@ =~= seq!['/']);
    if n.len() == p.len() || crate::text::has_suffix(&n, &slash) {
        return Ok(None);
    }
    let rel = slice(&n, p.len(), n.len());
    assert(rel@ =~= name@.skip(prefix@.len() as int));
    match safe_rel_path(string_of(&rel).as_str()) {
        Ok(r) => Ok(Some(string_of(&crate::paths::path_join(&chars_of(game_dir), &chars_of(r.as_str()))))),
        Err(e) => Err(e),
    }
}

/// A catalog project installed as a pack must be a modpack.
pub fn check_modpack(title: &str, project_type: &str) -> (r: AppResult<()>)
    ensures
        r is Ok <==> project_type@ == "modpack"@,
        r matches Err(e) ==> e.message@ == "Project '"@ + title@ + "' is a "@ + project_type@
            + ", not a modpack"@,
{
    if str_eq(project_type, "modpack") {
        return Ok(());
    }
    let mut m = chars_of("Project '");
    append_str(&mut m, title);
    append_str(&mut m, "' is a ");
    append_str(&mut m, project_type);
    append_str(&mut m, ", not a modpack");
    Err(AppError::msg(string_of(&m)))
}

/// `{cache_dir}/mrpack-catalog/{version id}/{file name}`: where a catalog
/// pack is downloaded before import.
pub fn catalog_pack_path(cache_dir: &str, version_id: &str, filename: &str) -> (r: String)
    ensures
        r@ == crate::paths::join(
            crate::paths::join(crate::paths::join(cache_dir@, "mrpack-catalog"@), version_id@),
            filename@,
        ),
{
    let a = path_join_str(&path_join_str(&chars_of(cache_dir), "mrpack-catalog"), version_id);
    string_of(&path_join_str(&a, filename))
}

// ===========================================================================
// Export
// ===========================================================================

/// The dependencies an exported pack declares: the game version, and the
/// loader with its version when the instance records one.
pub open spec fn export_deps_of(loader: Seq<char>, game_version: Seq<char>, loader_version: Option<Seq<char>>) -> Seq<(Seq<char>, Seq<char>)> {
    let key = if loader == "fabric"@ {
        Some("fabric-loader"@)
    } else if loader == "quilt"@ {
        Some("quilt-loader"@)
    } else if loader == "forge"@ {
        Some("forge"@)
    } else if loader == "neoforge"@ {
        Some("neoforge"@)
    } else {
        None
    };
    match (key, loader_version) {
        (Some(k), Some(v)) => seq![("minecraft"@, game_version), (k, v)],
        _ => seq![("minecraft"@, game_version)],
    }
}

pub fn export_deps(instance: &Instance) -> (r: Vec<(String, String)>)
    ensures
        crate::resolve::pairs_view(r@) == export_deps_of(instance.loader@, instance.game_version@, oview(instance.loader_version)),
{
    let mut deps: Vec<(String, String)> = Vec::new();
    deps.push((lit("minecraft"), instance.game_version.clone()));
    let l = instance.loader.as_str();
    let key = if str_eq(l, "fabric") {
        Some("fabric-loader")
    } else if str_eq(l, "quilt") {
        Some("quilt-loader")
    } else if str_eq(l, "forge") {
        Some("forge")
    } else if str_eq(l, "neoforge") {
        Some("neoforge")
    } else {
        None
    };
    match (key, &instance.loader_version) {
        (Some(k), Some(v)) => {
            deps.push((lit(k), v.clone()));
        },
        _ => {},
    }
    assert(crate::resolve::pairs_view(deps@) =~= export_deps_of(instance.loader@, instance.game_version@, oview(instance.loader_version)));
    deps
}

/// The index of an exported pack, before its files: format 1 for
/// Minecraft, the requested version id (else `aureum-` and the first eight
/// bytes of the instance id), the requested name (else the instance's),
/// the requested summary (else one naming the game version).
pub fn export_index(instance: &Instance, req: &ExportMrpackRequest) -> (r: MrpackIndex)
    requires
        req.version_id is Some || crate::text::utf8_len(instance.id@) <= 8 || exists|k: int|
            0 <= k <= instance.id@.len() && crate::text::utf8_len(#[trigger] instance.id@.take(k)) == 8,
    ensures
        r.format_version == 1,
        r.game@ == "minecraft"@,
        r.version_id@ == match req.version_id {
            Some(v) => v@,
            None => "aureum-"@ + crate::text::byte_prefix_or_all(instance.id@, 8),
        },
        r.name@ == match req.name {
            Some(n) => n@,
            None => instance.name@,
        },
        oview(r.summary) == match req.summary {
            Some(s) => Some(s@),
            None => Some("Exported from Aureum ("@ + instance.game_version@ + ")"@),
        },
        r.files.len() == 0,
        crate::resolve::pairs_view(r.dependencies@) == export_deps_of(instance.loader@, instance.game_version@, oview(instance.loader_version)),
{
    let version_id = match &req.version_id {
        Some(v) => v.clone(),
        None => {
            let mut v = chars_of("aureum-");
            append(&mut v, &crate::text::byte_prefix(&chars_of(instance.id.as_str()), 8));
            string_of(&v)
        },
    };
    let name = match &req.name {
        Some(n) => n.clone(),
        None => instance.name.clone(),
    };
    let summary = match &req.summary {
        Some(s) => s.clone(),
        None => {
            let mut m = chars_of("Exported from Aureum (");
            append_str(&mut m, instance.game_version.as_str());
            append_str(&mut m, ")");
            string_of(&m)
        },
    };
    MrpackIndex {
        format_version: 1,
        game: lit("minecraft"),
        version_id,
        name,
        summary: Some(summary),
        files: Vec::new(),
        dependencies: export_deps(instance),
    }
}

/// Whether an exported mod can be fetched from Modrinth's CDN: a Modrinth
/// mod with a version id that is neither from a pack nor a local jar.
pub open spec fn cdn_listed(m: InstalledMod) -> bool {
    m.source@ == "modrinth"@ && m.version_id@.len() > 0 && !starts_with(m.project_id@, "mrpack:"@)
        && !starts_with(m.project_id@, "local:"@)
}

/// How an enabled mod enters an exported pack.
pub enum ExportEntry {
    /// The jar itself, stored under this zip entry name.
    Embed(String),
    /// A file entry of the index, fetched from the CDN.
    Listed(MrpackFile),
}

/// The export of one enabled mod whose jar holds `bytes`: a CDN file entry
/// (path `mods/{file}`, both digests, the size, client-required and
/// server-unsupported) when the mod is on Modrinth, else the jar embedded
/// under `overrides/mods/{file}`.
pub fn export_entry(m: &InstalledMod, bytes: &[u8]) -> (r: ExportEntry)
    ensures
        !cdn_listed(*m) ==> (r matches ExportEntry::Embed(n) && n@ == "overrides/mods/"@ + m.filename@),
        cdn_listed(*m) ==> (r matches ExportEntry::Listed(f) && ({
            &&& f.path@ == "mods/"@ + m.filename@
            &&& crate::resolve::pairs_view(f.hashes@) == seq![
                ("sha1"@, crate::digest::hex_of(crate::digest::sha1_of(bytes@))),
                ("sha512"@, crate::digest::hex_of(crate::digest::sha512_of(bytes@))),
            ]
            &&& f.downloads@.len() == 1
            &&& f.downloads@[0]@ == "https://cdn.modrinth.com/data/"@ + m.project_id@ + "/versions/"@
                + m.version_id@ + seq!['/'] + m.filename@
            &&& f.file_size == bytes@.len()
            &&& f.env matches Some(e) && e.client@ == "required"@ && e.server@ == "unsupported"@
        })),
{
    let listed = str_eq(m.source.as_str(), "modrinth") && chars_of(m.version_id.as_str()).len() > 0
        && !has_prefix_str(&chars_of(m.project_id.as_str()), "mrpack:") && !has_prefix_str(
        &chars_of(m.project_id.as_str()),
        "local:",
    );
    let mut rel = chars_of("mods/");
    append_str(&mut rel, m.filename.as_str());
    if !listed {
        let mut n = chars_of("overrides/");
        append(&mut n, &rel);
        assert(n@ =~= "overrides/mods/"@ + m.filename@) by {
            reveal_strlit("overrides/");
            reveal_strlit("mods/");
            reveal_strlit("overrides/mods/");
        }
        return ExportEntry::Embed(string_of(&n));
    }
    let sha1 = crate::digest::hex_encode(crate::digest::sha1_digest(bytes).as_slice());
    let sha512 = crate::digest::hex_encode(crate::digest::sha512_digest(bytes).as_slice());
    let mut hashes: Vec<(String, String)> = Vec::new();
    hashes.push((lit("sha1"), sha1));
    hashes.push((lit("sha512"), sha512));
    let mut url = chars_of("https://cdn.modrinth.com/data/");
    append_str(&mut url, m.project_id.as_str());
    append_str(&mut url, "/versions/");
    append_str(&mut url, m.version_id.as_str());
    url.push('/');
    append_str(&mut url, m.filename.as_str());
    let mut downloads: Vec<String> = Vec::new();
    downloads.push(string_of(&url));
    let size = bytes.len() as u64;
    let f = MrpackFile {
        path: string_of(&rel),
        hashes,
        downloads,
        file_size: size,
        env: Some(MrpackEnv { client: lit("required"), server: lit("unsupported") }),
    };
    assert(crate::resolve::pairs_view(f.hashes@) =~= seq![
        ("sha1"@, crate::digest::hex_of(crate::digest::sha1_of(bytes@))),
        ("sha512"@, crate::digest::hex_of(crate::digest::sha512_of(bytes@))),
    ]);
    ExportEntry::Listed(f)
}

/// An accepted pack path stays inside the folder it is written to: it is
/// relative and has no drive prefix, and it is its components joined with
/// `/`, none of which is empty, `.` or `..`, or holds a `/` or a `\`.
pub proof fn law_pack_path_confined(raw: Seq<char>)
    ensures
        rel_path(raw) matches Ok(p) ==> {
            &&& p == join_parts(pack_parts(raw), "/"@)
            &&& p.len() > 0 && p[0] != '/' && p[0] != '\\'
            &&& !drive_prefixed(p)
            &&& pack_parts(raw).len() > 0
            &&& forall|k: int|
                0 <= k < pack_parts(raw).len() ==> {
                    let c = #[trigger] pack_parts(raw)[k];
                    c.len() > 0 && c != "."@ && c != ".."@ && !c.contains('/') && !c.contains('\\')
                }
        },
{
    let norm = replace(raw, seq!['\\'], seq!['/']);
    crate::paths::lemma_parts_clean(norm);
    reveal_strlit("/");
    assert(crate::text::lacks(seq!['/'], '\\'));
    crate::text::lemma_replace_removes(raw, '\\', seq!['/']);
    crate::paths::lemma_parts_lack(norm, '\\');
    if rel_path(raw) is Ok {
        let ps = pack_parts(raw);
        assert forall|k: int| 0 <= k < ps.len() implies ps[k] != ".."@ by {
            if ps[k] == ".."@ {
                assert(ps.contains(".."@));
            }
        }
        assert forall|k: int| 0 <= k < ps.len() implies !(#[trigger] ps[k]).contains('\\') by {
            assert(crate::text::lacks(ps[k], '\\'));
            if ps[k].contains('\\') {
                let j = choose|j: int| 0 <= j < ps[k].len() && ps[k][j] == '\\';
            }
        }
        crate::text::lemma_join_starts(ps, "/"@);
        assert(ps[0].len() > 0);
        let p = join_parts(ps, "/"@);
        assert(p[0] == ps[0][0]) by {
            assert(p.take(ps[0].len() as int)[0] == ps[0][0]);
        }
        assert(!ps[0].contains('/'));
        assert(!ps[0].contains('\\'));
        if ps[0][0] == '/' {
            assert(ps[0].contains('/'));
        }
        if ps[0][0] == '\\' {
            assert(ps[0].contains('\\'));
        }
        if drive_prefixed(p) {
            if ps[0].len() >= 2 {
                assert(p[1] == ps[0][1]) by {
                    assert(p.take(ps[0].len() as int)[1] == ps[0][1]);
                }
                assert(drive_prefixed(ps[0]));
            } else {
                assert(ps.len() > 1) by {
                    if ps.len() == 1 {
                        assert(p == ps[0]);
                    }
                }
                assert(p.len() > 1);
                lemma_second_char_sep(ps);
                assert(p[1] == '/');
            }
        }
    }
}

proof fn lemma_second_char_sep(ps: Seq<Seq<char>>)
    requires
        ps.len() > 1,
        ps[0].len() == 1,
    ensures
        join_parts(ps, "/"@).len() > 1,
        join_parts(ps, "/"@)[1] == '/',
    decreases ps.len(),
{
    reveal_strlit("/");
    let d = ps.drop_last();
    if ps.len() == 2 {
        assert(join_parts(d, "/"@) == ps[0]);
        assert(join_parts(ps, "/"@) == ps[0] + "/"@ + ps[1]);
    } else {
        assert(d[0] == ps[0]);
        lemma_second_char_sep(d);
        let j = join_parts(d, "/"@);
        assert(join_parts(ps, "/"@) == j + "/"@ + ps.last());
        assert((j + "/"@ + ps.last())[1] == j[1]);
    }
}

/// The loaders whose version an exported pack declares.
pub open spec fn exports_loader(loader: Seq<char>) -> bool {
    loader == "fabric"@ || loader == "quilt"@ || loader == "forge"@ || loader == "neoforge"@
}

proof fn lemma_lookup_two(a: Seq<char>, x: Seq<char>, b: Seq<char>, y: Seq<char>, k: Seq<char>)
    ensures
        lookup(seq![(a, x), (b, y)], k) == if k == a {
            Some(x)
        } else if k == b {
            Some(y)
        } else {
            None::<Seq<char>>
        },
        lookup(seq![(a, x)], k) == if k == a {
            Some(x)
        } else {
            None::<Seq<char>>
        },
{
    let m = seq![(a, x), (b, y)];
    assert(m.drop_first() =~= seq![(b, y)]);
    assert(seq![(b, y)].drop_first() =~= Seq::<(Seq<char>, Seq<char>)>::empty());
    assert(seq![(a, x)].drop_first() =~= Seq::<(Seq<char>, Seq<char>)>::empty());
    reveal_with_fuel(crate::resolve::first_index, 3);
}

/// A pack exported from an instance reads back as the instance's game: the
/// dependencies it declares give back its game version and its loader
/// with that loader's version. This holds for vanilla instances without a
/// recorded loader version and for modded instances that record one (a
/// modded instance without one exports no loader and reads back as
/// vanilla; those inputs are left out).
pub proof fn law_export_loader_round_trip(
    deps: Seq<(String, String)>,
    loader: Seq<char>,
    game_version: Seq<char>,
    loader_version: Option<Seq<char>>,
)
    requires
        pairs_view(deps) == export_deps_of(loader, game_version, loader_version),
        (loader == "vanilla"@ && loader_version is None) || (exports_loader(loader) && loader_version is Some),
    ensures
        pack_loader(deps) == Ok::<(Seq<char>, Option<Seq<char>>, Seq<char>), Seq<char>>((loader, loader_version, game_version)),
{
    broadcast use vstd::string::group_string_axioms;

    reveal_strlit("minecraft");
    reveal_strlit("fabric-loader");
    reveal_strlit("quilt-loader");
    reveal_strlit("neoforge");
    reveal_strlit("forge");
    reveal_strlit("fabric");
    reveal_strlit("quilt");
    reveal_strlit("vanilla");
    let d = pairs_view(deps);
    assert("minecraft"@.len() == 9);
    assert("fabric-loader"@.len() == 13);
    assert("quilt-loader"@.len() == 12);
    assert("neoforge"@.len() == 8);
    assert("forge"@.len() == 5);
    match loader_version {
        Some(v) => {
            let key = if loader == "fabric"@ {
                "fabric-loader"@
            } else if loader == "quilt"@ {
                "quilt-loader"@
            } else if loader == "forge"@ {
                "forge"@
            } else {
                "neoforge"@
            };
            assert(d == seq![("minecraft"@, game_version), (key, v)]);
            lemma_lookup_two("minecraft"@, game_version, key, v, "minecraft"@);
            lemma_lookup_two("minecraft"@, game_version, key, v, "fabric-loader"@);
            lemma_lookup_two("minecraft"@, game_version, key, v, "quilt-loader"@);
            lemma_lookup_two("minecraft"@, game_version, key, v, "neoforge"@);
            lemma_lookup_two("minecraft"@, game_version, key, v, "forge"@);
            assert(lookup(d, "minecraft"@) == Some(game_version));
            if loader == "fabric"@ {
                assert(lookup(d, "fabric-loader"@) == Some(v));
            } else if loader == "quilt"@ {
                assert(lookup(d, "fabric-loader"@) is None);
                assert(lookup(d, "quilt-loader"@) == Some(v));
            } else if loader == "forge"@ {
                assert(lookup(d, "fabric-loader"@) is None);
                assert(lookup(d, "quilt-loader"@) is None);
                assert(lookup(d, "neoforge"@) is None);
                assert(lookup(d, "forge"@) == Some(v));
            } else {
                assert(loader == "neoforge"@);
                assert(lookup(d, "fabric-loader"@) is None);
                assert(lookup(d, "quilt-loader"@) is None);
                assert(lookup(d, "neoforge"@) == Some(v));
            }
        },
        None => {
            assert(d == seq![("minecraft"@, game_version)]);
            lemma_lookup_two("minecraft"@, game_version, "minecraft"@, game_version, "minecraft"@);
            lemma_lookup_two("minecraft"@, game_version, "minecraft"@, game_version, "fabric-loader"@);
            lemma_lookup_two("minecraft"@, game_version, "minecraft"@, game_version, "quilt-loader"@);
            lemma_lookup_two("minecraft"@, game_version, "minecraft"@, game_version, "neoforge"@);
            lemma_lookup_two("minecraft"@, game_version, "minecraft"@, game_version, "forge"@);
        },
    }
}

} // verus!
