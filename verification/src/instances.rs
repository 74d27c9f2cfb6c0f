//! Instances: records, templates, folder naming and install status.
use vstd::prelude::*;
use crate::error::{AppError, AppResult};
use crate::paths::{join, path_join, path_join_str};
use crate::text::{
    append, append_str, ascii_lower, cat, chars_of, copy_opt, eq_str, is_ascii_alnum, join as
    join_parts, lit, lower, oview, split, split_on, str_eq, string_of, trim, trimmed, utf8_len,
    utf8_width, views, char_ascii_lower, char_is_ascii_alnum, join_str, byte_prefix,
    byte_prefix_or_all, to_lowercase, unicode_lower,
};

verus! {

/// A game instance as stored.
pub struct Instance {
    pub id: String,
    pub name: String,
    pub loader: String,
    pub game_version: String,
    pub loader_version: Option<String>,
    pub game_dir: String,
    pub java_path: Option<String>,
    pub memory_mb: i64,
    pub jvm_args: Option<String>,
    pub keep_open: bool,
    pub last_played: Option<String>,
    pub icon: Option<String>,
    pub created_at: String,
    pub updated_at: String,
}

/// What the user gives to create an instance.
pub struct NewInstance {
    pub name: String,
    pub loader: String,
    pub game_version: String,
    pub loader_version: Option<String>,
    pub java_path: Option<String>,
    pub memory_mb: Option<i64>,
    pub jvm_args: Option<String>,
    pub keep_open: Option<bool>,
}

/// A partial update of an instance.
pub struct InstancePatch {
    pub name: Option<String>,
    pub java_path: Option<String>,
    pub memory_mb: Option<i64>,
    pub jvm_args: Option<String>,
    pub keep_open: Option<bool>,
    pub icon: Option<String>,
    pub game_version: Option<String>,
    pub loader: Option<String>,
    pub loader_version: Option<String>,
}

/// A ready-made instance recipe.
pub struct InstanceTemplate {
    pub id: String,
    pub name: String,
    pub loader: String,
    pub game_version: String,
    pub loader_version: Option<String>,
    pub description: String,
}

/// Whether an instance is ready to launch.
pub struct InstanceStatus {
    pub installed: bool,
    pub client_jar: Option<String>,
}

/// The supported mod loaders.
pub open spec fn is_loader(l: Seq<char>) -> bool {
    l == "vanilla"@ || l == "fabric"@ || l == "forge"@ || l == "neoforge"@ || l == "quilt"@
}

pub fn is_supported_loader(l: &str) -> (b: bool)
    ensures
        b == is_loader(l@),
{
    str_eq(l, "vanilla") || str_eq(l, "fabric") || str_eq(l, "forge") || str_eq(l, "neoforge")
        || str_eq(l, "quilt")
}

pub open spec fn template_is(
    t: InstanceTemplate,
    id: Seq<char>,
    name: Seq<char>,
    loader: Seq<char>,
    game_version: Seq<char>,
    description: Seq<char>,
) -> bool {
    &&& t.id@ == id
    &&& t.name@ == name
    &&& t.loader@ == loader
    &&& t.game_version@ == game_version
    &&& t.loader_version is None
    &&& t.description@ == description
}

fn template(id: &str, name: &str, loader: &str, game_version: &str, description: &str) -> (t:
    InstanceTemplate)
    ensures
        template_is(t, id@, name@, loader@, game_version@, description@),
{
    InstanceTemplate {
        id: lit(id),
        name: lit(name),
        loader: lit(loader),
        game_version: lit(game_version),
        loader_version: None,
        description: lit(description),
    }
}

/// The built-in instance templates, in display order.
pub fn templates() -> (r: Vec<InstanceTemplate>)
    ensures
        r@.len() == 7,
        template_is(
            r@[0],
            "vanilla-latest"@,
            "Vanilla Latest"@,
            "vanilla"@,
            "latest-release"@,
            "Official release, isolated game directory."@,
        ),
        template_is(
            r@[1],
            "vanilla-snapshot"@,
            "Vanilla Snapshot"@,
            "vanilla"@,
            "latest-snapshot"@,
            "Latest official snapshot, pre-release, or RC."@,
        ),
        template_is(
            r@[2],
            "vanilla-1.21.1"@,
            "Vanilla 1.21.1"@,
            "vanilla"@,
            "1.21.1"@,
            "Pinned vanilla 1.21.1."@,
        ),
        template_is(
            r@[3],
            "fabric-1.21.1"@,
            "Fabric 1.21.1"@,
            "fabric"@,
            "1.21.1"@,
            "Fabric loader on 1.21.1. Latest loader resolved at install."@,
        ),
        template_is(
            r@[4],
            "quilt-1.21.1"@,
            "Quilt 1.21.1"@,
            "quilt"@,
            "1.21.1"@,
            "Quilt loader on 1.21.1."@,
        ),
        template_is(
            r@[5],
            "neoforge-1.21.1"@,
            "NeoForge 1.21.1"@,
            "neoforge"@,
            "1.21.1"@,
            "NeoForge on 1.21.1 from official installer metadata."@,
        ),
        template_is(
            r@[6],
            "forge-1.21.1"@,
            "Forge 1.21.1"@,
            "forge"@,
            "1.21.1"@,
            "Forge on 1.21.1 from official installer metadata."@,
        ),
{
    let mut r: Vec<InstanceTemplate> = Vec::new();
    r.push(
        template(
            "vanilla-latest",
            "Vanilla Latest",
            "vanilla",
            "latest-release",
            "Official release, isolated game directory.",
        ),
    );
    r.push(
        template(
            "vanilla-snapshot",
            "Vanilla Snapshot",
            "vanilla",
            "latest-snapshot",
            "Latest official snapshot, pre-release, or RC.",
        ),
    );
    r.push(
        template("vanilla-1.21.1", "Vanilla 1.21.1", "vanilla", "1.21.1", "Pinned vanilla 1.21.1."),
    );
    r.push(
        template(
            "fabric-1.21.1",
            "Fabric 1.21.1",
            "fabric",
            "1.21.1",
            "Fabric loader on 1.21.1. Latest loader resolved at install.",
        ),
    );
    r.push(template("quilt-1.21.1", "Quilt 1.21.1", "quilt", "1.21.1", "Quilt loader on 1.21.1."));
    r.push(
        template(
            "neoforge-1.21.1",
            "NeoForge 1.21.1",
            "neoforge",
            "1.21.1",
            "NeoForge on 1.21.1 from official installer metadata.",
        ),
    );
    r.push(
        template(
            "forge-1.21.1",
            "Forge 1.21.1",
            "forge",
            "1.21.1",
            "Forge on 1.21.1 from official installer metadata.",
        ),
    );
    r
}

/// The character a name character becomes in a slug.
pub open spec fn slug_char(c: char) -> char {
    if is_ascii_alnum(c) {
        ascii_lower(c)
    } else {
        '-'
    }
}

/// The folder-safe slug of a name: ASCII letters and digits lowercased,
/// every other run of characters a single `-`, no leading or trailing `-`;
/// `instance` when nothing is left.
pub open spec fn slug(name: Seq<char>) -> Seq<char> {
    let words = split(name.map_values(|c: char| slug_char(c)), '-').filter(
        |w: Seq<char>| w.len() > 0,
    );
    let collapsed = join_parts(words, "-"@);
    if collapsed.len() == 0 {
        "instance"@
    } else {
        collapsed
    }
}

pub fn slugify(name: &str) -> (r: String)
    ensures
        r@ == slug(name@),
{
    let cs = chars_of(name);
    let mut mapped: Vec<char> = Vec::new();
    let mut i: usize = 0;
    while i < cs.len()
        invariant
            i <= cs.len(),
            mapped@ == cs@.take(i as int).map_values(|c: char| slug_char(c)),
        decreases cs.len() - i,
    {
        let c = cs[i];
        let m = if char_is_ascii_alnum(c) {
            char_ascii_lower(c)
        } else {
            '-'
        };
        mapped.push(m);
        i += 1;
        assert(cs@.take(i as int).map_values(|c: char| slug_char(c)) =~= cs@.take(i - 1).map_values(
            |c: char| slug_char(c),
        ).push(slug_char(c)));
    }
    assert(cs@.take(cs.len() as int) == cs@);
    let segs = split_on(&mapped, '-');
    let ghost sv = views(segs@);
    let mut words: Vec<Vec<char>> = Vec::new();
    let mut k: usize = 0;
    while k < segs.len()
        invariant
            k <= segs.len(),
            sv == views(segs@),
            views(words@) == sv.take(k as int).filter(|w: Seq<char>| w.len() > 0),
        decreases segs.len() - k,
    {
        proof {
            reveal_with_fuel(Seq::filter, 1);
            assert(sv.take(k + 1).drop_last() == sv.take(k as int));
        }
        if segs[k].len() > 0 {
            let ghost w0 = words@;
            let mut w: Vec<char> = Vec::new();
            append(&mut w, &segs[k]);
            words.push(w);
            assert(views(words@) =~= views(w0).push(sv[k as int]));
        }
        k += 1;
    }
    assert(sv.take(segs.len() as int) == sv);
    let collapsed = join_str(&words, "-");
    if collapsed.len() == 0 {
        lit("instance")
    } else {
        string_of(&collapsed)
    }
}

/// Accepts the supported loaders; refuses any other with a message naming it.
pub fn validate_loader(loader: &str) -> (r: AppResult<()>)
    ensures
        r is Ok <==> is_loader(loader@),
        r matches Err(e) ==> e.message@ == "Unsupported loader: "@ + loader@,
{
    if is_supported_loader(loader) {
        Ok(())
    } else {
        Err(AppError::msg(cat("Unsupported loader: ", loader)))
    }
}

fn short_id(id: &str) -> (r: Vec<char>)
    ensures
        r@ == byte_prefix_or_all(id@, 8),
{
    byte_prefix(&chars_of(id), 8)
}

/// The isolated game folder of a new instance: `{root}/{slug}-{short id}`,
/// where the short id is the first 8 bytes of the id.
pub fn isolated_dir(root: &str, name: &str, id: &str) -> (r: String)
    ensures
        r@ == join(root@, slug(name@) + "-"@ + byte_prefix_or_all(id@, 8)),
{
    let mut leaf = chars_of(slugify(name).as_str());
    append_str(&mut leaf, "-");
    append(&mut leaf, &short_id(id));
    string_of(&path_join(&chars_of(root), &leaf))
}

/// `{game_dir}/versions/{version}/{version}.jar`.
pub open spec fn client_jar_of(game_dir: Seq<char>, game_version: Seq<char>) -> Seq<char> {
    join(join(join(game_dir, "versions"@), game_version), game_version + ".jar"@)
}

/// `{game_dir}/versions/{id}/{id}.json` with `id` = `{loader}-{version}`.
pub open spec fn loader_profile_of(game_dir: Seq<char>, loader: Seq<char>, game_version: Seq<char>) -> Seq<char> {
    let id = loader + "-"@ + game_version;
    join(join(join(game_dir, "versions"@), id), id + ".json"@)
}

/// Where the vanilla client jar of an instance is installed.
pub fn client_jar_path(instance: &Instance) -> (r: String)
    ensures
        r@ == client_jar_of(instance.game_dir@, instance.game_version@),
{
    let gd = chars_of(instance.game_dir.as_str());
    let gv = chars_of(instance.game_version.as_str());
    let versions = path_join_str(&gd, "versions");
    let vdir = path_join(&versions, &gv);
    let mut file = chars_of(instance.game_version.as_str());
    append_str(&mut file, ".jar");
    string_of(&path_join(&vdir, &file))
}

/// Where the loader profile of a modded instance is installed; none for vanilla.
pub fn loader_profile_path(instance: &Instance) -> (r: Option<String>)
    ensures
        oview(r) == if instance.loader@ == "vanilla"@ {
            None
        } else {
            Some(loader_profile_of(instance.game_dir@, instance.loader@, instance.game_version@))
        },
{
    if str_eq(instance.loader.as_str(), "vanilla") {
        return None;
    }
    let gd = chars_of(instance.game_dir.as_str());
    let mut id = chars_of(instance.loader.as_str());
    append_str(&mut id, "-");
    append(&mut id, &chars_of(instance.game_version.as_str()));
    let versions = path_join_str(&gd, "versions");
    let dir = path_join(&versions, &id);
    let mut file = id.clone();
    append_str(&mut file, ".json");
    Some(string_of(&path_join(&dir, &file)))
}

/// The install status of an instance, given whether its client jar and (for
/// a modded instance) its loader profile are files on disk: installed when
/// both are, and then the client jar is reported.
pub fn status(instance: &Instance, client_jar_is_file: bool, loader_profile_is_file: bool) -> (r:
    InstanceStatus)
    ensures
        r.installed == (client_jar_is_file && (instance.loader@ == "vanilla"@
            || loader_profile_is_file)),
        oview(r.client_jar) == if r.installed {
            Some(client_jar_of(instance.game_dir@, instance.game_version@))
        } else {
            None
        },
{
    let loader_ready = str_eq(instance.loader.as_str(), "vanilla") || loader_profile_is_file;
    let installed = client_jar_is_file && loader_ready;
    InstanceStatus {
        installed,
        client_jar: if installed {
            Some(client_jar_path(instance))
        } else {
            None
        },
    }
}

/// The folders a new instance starts with.
pub open spec fn starter_folders() -> Seq<Seq<char>> {
    seq![
        "mods"@,
        "resourcepacks"@,
        "saves"@,
        "logs"@,
        "crash-reports"@,
        "shaderpacks"@,
        "datapacks"@,
        "screenshots"@,
    ]
}

/// The folders created inside a new instance's game folder.
pub fn starter_dirs(game_dir: &str) -> (r: Vec<String>)
    ensures
        r@.len() == starter_folders().len(),
        forall|i: int| 0 <= i < r@.len() ==> #[trigger] r@[i]@ == join(game_dir@, starter_folders()[i]),
{
    let gd = chars_of(game_dir);
    let mut v: Vec<String> = Vec::new();
    v.push(string_of(&path_join_str(&gd, "mods")));
    v.push(string_of(&path_join_str(&gd, "resourcepacks")));
    v.push(string_of(&path_join_str(&gd, "saves")));
    v.push(string_of(&path_join_str(&gd, "logs")));
    v.push(string_of(&path_join_str(&gd, "crash-reports")));
    v.push(string_of(&path_join_str(&gd, "shaderpacks")));
    v.push(string_of(&path_join_str(&gd, "datapacks")));
    v.push(string_of(&path_join_str(&gd, "screenshots")));
    v
}

/// The record of a new instance with id `id`, stored under `game_dir` at
/// time `ts`: 2048 MiB and kept open unless asked otherwise, never played,
/// no icon. An unsupported loader is refused.
pub fn new_instance(new: NewInstance, id: String, game_dir: String, ts: String) -> (r: AppResult<Instance>)
    ensures
        r is Ok <==> is_loader(new.loader@),
        r matches Err(e) ==> e.message@ == "Unsupported loader: "@ + new.loader@,
        r matches Ok(i) ==> {
            &&& i.id == id
            &&& i.name == new.name
            &&& i.loader == new.loader
            &&& i.game_version == new.game_version
            &&& i.loader_version == new.loader_version
            &&& i.game_dir == game_dir
            &&& i.java_path == new.java_path
            &&& i.memory_mb == match new.memory_mb {
                Some(m) => m,
                None => 2048,
            }
            &&& i.jvm_args == new.jvm_args
            &&& i.keep_open == match new.keep_open {
                Some(k) => k,
                None => true,
            }
            &&& i.last_played is None
            &&& i.icon is None
            &&& i.created_at@ == ts@
            &&& i.updated_at@ == ts@
        },
{
    match validate_loader(new.loader.as_str()) {
        Ok(()) => {},
        Err(e) => {
            return Err(e);
        },
    }
    let memory_mb = match new.memory_mb {
        Some(m) => m,
        None => 2048,
    };
    let keep_open = match new.keep_open {
        Some(k) => k,
        None => true,
    };
    Ok(
        Instance {
            id,
            name: new.name,
            loader: new.loader,
            game_version: new.game_version,
            loader_version: new.loader_version,
            game_dir,
            java_path: new.java_path,
            memory_mb,
            jvm_args: new.jvm_args,
            keep_open,
            last_played: None,
            icon: None,
            created_at: ts.clone(),
            updated_at: ts,
        },
    )
}

/// What cloning an instance creates: the same settings under the name
/// `{name} (copy)`.
pub fn clone_request(src: &Instance) -> (r: NewInstance)
    ensures
        r.name@ == src.name@ + " (copy)"@,
        r.loader == src.loader,
        r.game_version == src.game_version,
        r.loader_version == src.loader_version,
        r.java_path == src.java_path,
        r.memory_mb == Some(src.memory_mb),
        r.jvm_args == src.jvm_args,
        r.keep_open == Some(src.keep_open),
{
    NewInstance {
        name: cat(src.name.as_str(), " (copy)"),
        loader: src.loader.clone(),
        game_version: src.game_version.clone(),
        loader_version: src.loader_version.clone(),
        java_path: src.java_path.clone(),
        memory_mb: Some(src.memory_mb),
        jvm_args: src.jvm_args.clone(),
        keep_open: Some(src.keep_open),
    }
}

/// A patched text field: trimmed, and only when something is left.
pub open spec fn trimmed_value(v: Option<String>) -> Option<Seq<char>> {
    match v {
        Some(s) => if trim(s@).len() > 0 {
            Some(trim(s@))
        } else {
            None
        },
        None => None,
    }
}

/// A patched loader: trimmed and lowercased, and only when something is left.
pub open spec fn loader_value(v: Option<String>) -> Option<Seq<char>> {
    match v {
        Some(s) => if unicode_lower(trim(s@)).len() > 0 {
            Some(unicode_lower(trim(s@)))
        } else {
            None
        },
        None => None,
    }
}

/// The loader an instance has after `patch`.
pub open spec fn patched_loader(current: Instance, patch: InstancePatch) -> Seq<char> {
    match loader_value(patch.loader) {
        Some(l) => l,
        None => current.loader@,
    }
}

/// `i` is `current` updated by `patch` (see [`apply_patch`]).
pub open spec fn patched(current: Instance, patch: InstancePatch, ts: Seq<char>, i: Instance) -> bool {
    &&& i.id == current.id
    &&& i.name == match patch.name {
        Some(n) => n,
        None => current.name,
    }
    &&& i.java_path == match patch.java_path {
        Some(p) => Some(p),
        None => current.java_path,
    }
    &&& i.memory_mb == match patch.memory_mb {
        Some(m) => m,
        None => current.memory_mb,
    }
    &&& i.jvm_args == match patch.jvm_args {
        Some(a) => Some(a),
        None => current.jvm_args,
    }
    &&& i.keep_open == match patch.keep_open {
        Some(k) => k,
        None => current.keep_open,
    }
    &&& i.icon == match patch.icon {
        Some(x) => Some(x),
        None => current.icon,
    }
    &&& i.game_version@ == match trimmed_value(patch.game_version) {
        Some(g) => g,
        None => current.game_version@,
    }
    &&& i.loader@ == patched_loader(current, patch)
    &&& oview(i.loader_version) == if patched_loader(current, patch) == "vanilla"@ {
        None
    } else if patch.loader_version is Some {
        trimmed_value(patch.loader_version)
    } else {
        oview(current.loader_version)
    }
    &&& i.game_dir == current.game_dir
    &&& i.last_played == current.last_played
    &&& i.created_at == current.created_at
    &&& i.updated_at@ == ts
}

/// `current` updated by `patch`: given fields replace the current ones; a
/// game version or loader is trimmed (the loader lowercased) and ignored
/// when blank; a vanilla instance has no loader version, and a given
/// loader version is trimmed and dropped when blank; the update is stamped
/// with time `ts`. An unsupported loader is refused.
pub fn apply_patch(current: Instance, patch: InstancePatch, ts: String) -> (r: AppResult<Instance>)
    ensures
        r is Ok <==> is_loader(patched_loader(current, patch)),
        r matches Err(e) ==> e.message@ == "Unsupported loader '"@ + patched_loader(current, patch) + "'"@,
        r matches Ok(i) ==> patched(current, patch, ts@, i),
{
    let game_version = match &patch.game_version {
        Some(g) => {
            let t = trimmed(&chars_of(g.as_str()));
            if t.len() > 0 {
                string_of(&t)
            } else {
                current.game_version.clone()
            }
        },
        None => current.game_version.clone(),
    };
    let loader = match &patch.loader {
        Some(l) => {
            let t = string_of(&trimmed(&chars_of(l.as_str())));
            let low = to_lowercase(t.as_str());
            if chars_of(low.as_str()).len() > 0 {
                low
            } else {
                current.loader.clone()
            }
        },
        None => current.loader.clone(),
    };
    if !is_supported_loader(loader.as_str()) {
        let mut m = chars_of("Unsupported loader '");
        append_str(&mut m, loader.as_str());
        append_str(&mut m, "'");
        return Err(AppError::msg(string_of(&m)));
    }
    let loader_version = if str_eq(loader.as_str(), "vanilla") {
        None
    } else {
        match &patch.loader_version {
            Some(v) => {
                let t = trimmed(&chars_of(v.as_str()));
                if t.len() > 0 {
                    Some(string_of(&t))
                } else {
                    None
                }
            },
            None => copy_opt(&current.loader_version),
        }
    };
    Ok(
        Instance {
            id: current.id,
            name: match patch.name {
                Some(n) => n,
                None => current.name,
            },
            loader,
            game_version,
            loader_version,
            game_dir: current.game_dir,
            java_path: match patch.java_path {
                Some(p) => Some(p),
                None => current.java_path,
            },
            memory_mb: match patch.memory_mb {
                Some(m) => m,
                None => current.memory_mb,
            },
            jvm_args: match patch.jvm_args {
                Some(a) => Some(a),
                None => current.jvm_args,
            },
            keep_open: match patch.keep_open {
                Some(k) => k,
                None => current.keep_open,
            },
            last_played: current.last_played,
            icon: match patch.icon {
                Some(x) => Some(x),
                None => current.icon,
            },
            created_at: current.created_at,
            updated_at: ts,
        },
    )
}

/// An instance as stored: `keep_open` is stored as a number, non-zero for true.
pub fn row_to_instance(
    id: String,
    name: String,
    loader: String,
    game_version: String,
    loader_version: Option<String>,
    game_dir: String,
    java_path: Option<String>,
    memory_mb: i64,
    jvm_args: Option<String>,
    keep_open: i64,
    last_played: Option<String>,
    icon: Option<String>,
    created_at: String,
    updated_at: String,
) -> (i: Instance)
    ensures
        i.id == id,
        i.name == name,
        i.loader == loader,
        i.game_version == game_version,
        i.loader_version == loader_version,
        i.game_dir == game_dir,
        i.java_path == java_path,
        i.memory_mb == memory_mb,
        i.jvm_args == jvm_args,
        i.keep_open == (keep_open != 0),
        i.last_played == last_played,
        i.icon == icon,
        i.created_at == created_at,
        i.updated_at == updated_at,
{
    Instance {
        id,
        name,
        loader,
        game_version,
        loader_version,
        game_dir,
        java_path,
        memory_mb,
        jvm_args,
        keep_open: keep_open != 0,
        last_played,
        icon,
        created_at,
        updated_at,
    }
}

/// The patch that changes nothing.
pub open spec fn empty_patch() -> InstancePatch {
    InstancePatch {
        name: None,
        java_path: None,
        memory_mb: None,
        jvm_args: None,
        keep_open: None,
        icon: None,
        game_version: None,
        loader: None,
        loader_version: None,
    }
}

/// Updating an instance with a patch that gives nothing leaves it as it
/// was but for the time of the update, except that a vanilla instance drops
/// a stored loader version (the inputs left out here).
pub proof fn law_empty_patch_keeps(current: Instance, ts: Seq<char>, i: Instance)
    requires
        patched(current, empty_patch(), ts, i),
        current.loader@ != "vanilla"@ || current.loader_version is None,
    ensures
        i.id == current.id,
        i.name == current.name,
        i.java_path == current.java_path,
        i.memory_mb == current.memory_mb,
        i.jvm_args == current.jvm_args,
        i.keep_open == current.keep_open,
        i.icon == current.icon,
        i.game_version@ == current.game_version@,
        i.loader@ == current.loader@,
        oview(i.loader_version) == oview(current.loader_version),
        i.game_dir == current.game_dir,
        i.last_played == current.last_played,
        i.created_at == current.created_at,
        i.updated_at@ == ts,
{
}

/// The characters a slug may hold: lowercase ASCII letters, digits and `-`.
pub open spec fn slug_safe_char(c: char) -> bool {
    c == '-' || ('0' as u32 <= c as u32 <= '9' as u32) || ('a' as u32 <= c as u32 <= 'z' as u32)
}

proof fn lemma_slug_char_safe(c: char)
    ensures
        slug_safe_char(slug_char(c)),
{
    if is_ascii_alnum(c) && 'A' as u32 <= c as u32 <= 'Z' as u32 {
        let x: u32 = ((c as u32) + 32) as u32;
        assert(97 <= x <= 122);
        assert((x as char) as u32 == x);
    }
}

proof fn lemma_split_keeps(s: Seq<char>, c: char, q: spec_fn(char) -> bool)
    requires
        forall|i: int| 0 <= i < s.len() ==> q(#[trigger] s[i]),
    ensures
        forall|k: int, j: int|
            0 <= k < split(s, c).len() && 0 <= j < split(s, c)[k].len() ==> q(#[trigger] split(s, c)[k][j]),
    decreases s.len(),
{
    crate::text::lemma_split_nonempty(s, c);
    if s.len() > 0 {
        let d = s.drop_last();
        lemma_split_keeps(d, c, q);
        crate::text::lemma_split_nonempty(d, c);
        let r = split(d, c);
        if s.last() != c {
            let last = r.last().push(s.last());
            assert(split(s, c) == r.update(r.len() - 1, last));
            assert forall|k: int, j: int|
                0 <= k < split(s, c).len() && 0 <= j < split(s, c)[k].len() implies q(
                #[trigger] split(s, c)[k][j],
            ) by {
                if k < r.len() - 1 {
                    assert(split(s, c)[k] == r[k]);
                } else if j < r.last().len() {
                    assert(split(s, c)[k][j] == r[r.len() - 1][j]);
                } else {
                    assert(split(s, c)[k][j] == s[s.len() - 1]);
                }
            }
        } else {
            assert(split(s, c) == r.push(Seq::<char>::empty()));
            assert forall|k: int, j: int|
                0 <= k < split(s, c).len() && 0 <= j < split(s, c)[k].len() implies q(
                #[trigger] split(s, c)[k][j],
            ) by {
                assert(k < r.len());
                assert(split(s, c)[k] == r[k]);
            }
        }
    }
}

/// The nonempty words of a slug's split.
pub open spec fn slug_words(name: Seq<char>) -> Seq<Seq<char>> {
    split(name.map_values(|c: char| slug_char(c)), '-').filter(|w: Seq<char>| w.len() > 0)
}

proof fn lemma_filter_words(s: Seq<Seq<char>>, p: spec_fn(Seq<char>) -> bool)
    requires
        forall|k: int, j: int| 0 <= k < s.len() && 0 <= j < s[k].len() ==> slug_safe_char(#[trigger] s[k][j]),
        forall|k: int| 0 <= k < s.len() ==> !(#[trigger] s[k]).contains('-'),
        forall|w: Seq<char>| #[trigger] p(w) ==> w.len() > 0,
    ensures
        forall|k: int| 0 <= k < s.filter(p).len() ==> #[trigger] word_ok(s.filter(p)[k]),
    decreases s.len(),
{
    reveal_with_fuel(Seq::filter, 1);
    if s.len() > 0 {
        let d = s.drop_last();
        assert forall|k: int, j: int| 0 <= k < d.len() && 0 <= j < d[k].len() implies slug_safe_char(
            #[trigger] d[k][j],
        ) by {
            assert(d[k] == s[k]);
        }
        assert forall|k: int| 0 <= k < d.len() implies !(#[trigger] d[k]).contains('-') by {
            assert(d[k] == s[k]);
        }
        lemma_filter_words(d, p);
        let f = d.filter(p);
        if p(s.last()) {
            assert(s.filter(p) == f.push(s.last()));
            let l = s.last();
            assert(!s[s.len() - 1].contains('-'));
            assert forall|j: int| 0 <= j < l.len() implies #[trigger] slug_safe_char(l[j]) && l[j] != '-' by {
                assert(l[j] == s[s.len() - 1][j]);
                if l[j] == '-' {
                    assert(l.contains('-'));
                }
            }
            assert(word_ok(l));
            assert forall|k: int| 0 <= k < s.filter(p).len() implies #[trigger] word_ok(s.filter(p)[k]) by {
                if k < f.len() {
                    assert(s.filter(p)[k] == f[k]);
                }
            }
        } else {
            assert(s.filter(p) == f);
        }
    }
}

/// A word of a slug: not empty, of letters and digits only.
pub open spec fn word_ok(w: Seq<char>) -> bool {
    w.len() > 0 && forall|j: int| 0 <= j < w.len() ==> #[trigger] slug_safe_char(w[j]) && w[j] != '-'
}

proof fn lemma_join_words(parts: Seq<Seq<char>>)
    requires
        parts.len() > 0,
        forall|k: int| 0 <= k < parts.len() ==> #[trigger] word_ok(parts[k]),
    ensures
        join_parts(parts, "-"@).len() > 0,
        forall|i: int| 0 <= i < join_parts(parts, "-"@).len() ==> #[trigger] slug_safe_char(join_parts(parts, "-"@)[i]),
        join_parts(parts, "-"@)[0] != '-',
        join_parts(parts, "-"@).last() != '-',
        forall|i: int|
            0 <= i < join_parts(parts, "-"@).len() - 1 ==> !(#[trigger] join_parts(parts, "-"@)[i] == '-'
                && join_parts(parts, "-"@)[i + 1] == '-'),
    decreases parts.len(),
{
    reveal_strlit("-");
    let j = join_parts(parts, "-"@);
    if parts.len() == 1 {
        assert(word_ok(parts[0]));
        assert(j == parts[0]);
        assert(slug_safe_char(parts[0][parts[0].len() - 1]));
        assert(slug_safe_char(parts[0][0]));
        assert forall|i: int| 0 <= i < j.len() - 1 implies !(#[trigger] j[i] == '-' && j[i + 1] == '-') by {
            assert(slug_safe_char(parts[0][i]));
        }
    } else {
        let d = parts.drop_last();
        assert forall|k: int| 0 <= k < d.len() implies #[trigger] word_ok(d[k]) by {
            assert(d[k] == parts[k]);
        }
        lemma_join_words(d);
        let jd = join_parts(d, "-"@);
        let l = parts.last();
        assert(word_ok(parts[parts.len() - 1]));
        assert(j == jd + "-"@ + l);
        assert forall|i: int| 0 <= i < j.len() implies #[trigger] slug_safe_char(j[i]) by {
            if i < jd.len() {
                assert(j[i] == jd[i]);
            } else if i == jd.len() {
                assert(j[i] == '-');
            } else {
                assert(j[i] == l[i - jd.len() - 1]);
            }
        }
        assert(j[0] == jd[0]);
        assert(slug_safe_char(l[l.len() - 1]));
        assert(j[j.len() - 1] == l[l.len() - 1]);
        assert forall|i: int| 0 <= i < j.len() - 1 implies !(#[trigger] j[i] == '-' && j[i + 1] == '-') by {
            if i < jd.len() - 1 {
                assert(j[i] == jd[i]);
                assert(j[i + 1] == jd[i + 1]);
            } else if i == jd.len() - 1 {
                assert(j[i] == jd[jd.len() - 1]);
            } else if i == jd.len() {
                assert(j[i + 1] == l[0]);
                assert(slug_safe_char(l[0]));
            } else {
                assert(j[i] == l[i - jd.len() - 1]);
                assert(slug_safe_char(l[i - jd.len() - 1]));
            }
        }
    }
}

/// No piece of a split of text made only of `-` holds anything.
proof fn lemma_dash_pieces_empty(s: Seq<char>)
    requires
        forall|i: int| 0 <= i < s.len() ==> #[trigger] s[i] == '-',
    ensures
        forall|k: int| 0 <= k < split(s, '-').len() ==> (#[trigger] split(s, '-')[k]).len() == 0,
{
    lemma_split_keeps(s, '-', |c: char| c == '-');
    crate::text::lemma_split_pieces(s, '-');
    assert forall|k: int| 0 <= k < split(s, '-').len() implies (#[trigger] split(s, '-')[k]).len() == 0 by {
        let w = split(s, '-')[k];
        if w.len() > 0 {
            assert(w[0] == '-');
            assert(w.contains('-'));
        }
    }
}

proof fn lemma_filter_none(s: Seq<Seq<char>>, p: spec_fn(Seq<char>) -> bool)
    requires
        forall|k: int| 0 <= k < s.len() ==> !p(#[trigger] s[k]),
    ensures
        s.filter(p).len() == 0,
    decreases s.len(),
{
    reveal_with_fuel(Seq::filter, 1);
    if s.len() > 0 {
        let d = s.drop_last();
        assert forall|k: int| 0 <= k < d.len() implies !p(#[trigger] d[k]) by {
            assert(d[k] == s[k]);
        }
        lemma_filter_none(d, p);
        assert(!p(s[s.len() - 1]));
    }
}

proof fn lemma_filter_all(s: Seq<Seq<char>>, p: spec_fn(Seq<char>) -> bool)
    requires
        forall|k: int| 0 <= k < s.len() ==> p(#[trigger] s[k]),
    ensures
        s.filter(p) == s,
    decreases s.len(),
{
    reveal_with_fuel(Seq::filter, 1);
    if s.len() > 0 {
        let d = s.drop_last();
        assert forall|k: int| 0 <= k < d.len() implies p(#[trigger] d[k]) by {
            assert(d[k] == s[k]);
        }
        lemma_filter_all(d, p);
        assert(p(s[s.len() - 1]));
        assert(d.push(s.last()) =~= s);
    }
}

/// Mapping slug characters over text already made of them changes nothing.
proof fn lemma_slug_chars_fixed(s: Seq<char>)
    requires
        forall|i: int| 0 <= i < s.len() ==> #[trigger] slug_safe_char(s[i]),
    ensures
        s.map_values(|c: char| slug_char(c)) == s,
{
    assert forall|i: int| 0 <= i < s.len() implies #[trigger] slug_char(s[i]) == s[i] by {
        assert(slug_safe_char(s[i]));
    }
    assert(s.map_values(|c: char| slug_char(c)) =~= s);
}

/// A slug can name a folder anywhere: it is never empty, holds only
/// lowercase ASCII letters, digits and `-`, neither starts nor ends with
/// `-` and never holds `--`; a name without ASCII letters or digits gives
/// `instance`.
pub proof fn law_slug_is_folder_safe(name: Seq<char>)
    ensures
        slug(name).len() > 0,
        forall|i: int| 0 <= i < slug(name).len() ==> #[trigger] slug_safe_char(slug(name)[i]),
        slug(name)[0] != '-',
        slug(name).last() != '-',
        forall|i: int|
            0 <= i < slug(name).len() - 1 ==> !(#[trigger] slug(name)[i] == '-' && slug(name)[i + 1] == '-'),
        (forall|i: int| 0 <= i < name.len() ==> !is_ascii_alnum(#[trigger] name[i])) ==> slug(name)
            == "instance"@,
{
    if forall|i: int| 0 <= i < name.len() ==> !is_ascii_alnum(#[trigger] name[i]) {
        let m = name.map_values(|c: char| slug_char(c));
        assert forall|i: int| 0 <= i < m.len() implies #[trigger] m[i] == '-' by {
            assert(!is_ascii_alnum(name[i]));
        }
        lemma_dash_pieces_empty(m);
        lemma_filter_none(split(m, '-'), |w: Seq<char>| w.len() > 0);
        assert(slug_words(name).len() == 0);
    }
    reveal_strlit("instance");
    let mapped = name.map_values(|c: char| slug_char(c));
    assert forall|i: int| 0 <= i < mapped.len() implies #[trigger] slug_safe_char(mapped[i]) by {
        lemma_slug_char_safe(name[i]);
    }
    lemma_split_keeps(mapped, '-', |c: char| slug_safe_char(c));
    crate::text::lemma_split_pieces(mapped, '-');
    let pieces = split(mapped, '-');
    assert forall|k: int, j: int| 0 <= k < pieces.len() && 0 <= j < pieces[k].len() implies slug_safe_char(
        #[trigger] pieces[k][j],
    ) by {
    }
    lemma_filter_words(pieces, |w: Seq<char>| w.len() > 0);
    let words = slug_words(name);
    assert(words == pieces.filter(|w: Seq<char>| w.len() > 0));
    if words.len() > 0 {
        lemma_join_words(words);
    } else {
        assert(join_parts(words, "-"@) =~= Seq::<char>::empty());
        assert(slug(name) == "instance"@);
    }
}

/// Slugging a slug gives it back: a slug is already a folder name in the
/// form `slugify` writes.
pub proof fn law_slug_idempotent(name: Seq<char>)
    ensures
        slug(slug(name)) == slug(name),
{
    let s = slug(name);
    law_slug_is_folder_safe(name);
    lemma_slug_chars_fixed(s);
    reveal_strlit("-");
    let words = slug_words(name);
    if words.len() > 0 {
        let mapped = name.map_values(|c: char| slug_char(c));
        assert forall|i: int| 0 <= i < mapped.len() implies #[trigger] slug_safe_char(mapped[i]) by {
            lemma_slug_char_safe(name[i]);
        }
        lemma_split_keeps(mapped, '-', |c: char| slug_safe_char(c));
        crate::text::lemma_split_pieces(mapped, '-');
        let pieces = split(mapped, '-');
        assert forall|k: int, j: int| 0 <= k < pieces.len() && 0 <= j < pieces[k].len() implies slug_safe_char(
            #[trigger] pieces[k][j],
        ) by {
        }
        lemma_filter_words(pieces, |w: Seq<char>| w.len() > 0);
        assert(words == pieces.filter(|w: Seq<char>| w.len() > 0));
        lemma_join_words(words);
        assert(s == join_parts(words, "-"@));
        assert forall|k: int| 0 <= k < words.len() implies crate::text::lacks(#[trigger] words[k], '-') by {
            assert(word_ok(words[k]));
            assert forall|j: int| 0 <= j < words[k].len() implies words[k][j] != '-' by {
                assert(slug_safe_char(words[k][j]) && words[k][j] != '-');
            }
        }
        assert("-"@ == seq!['-']);
        crate::text::lemma_split_join(words, '-');
        assert(split(s, '-') == words);
        assert forall|k: int| 0 <= k < words.len() implies (|w: Seq<char>| w.len() > 0)(#[trigger] words[k]) by {
            assert(word_ok(words[k]));
        }
        lemma_filter_all(words, |w: Seq<char>| w.len() > 0);
        assert(slug_words(s) == words);
    } else {
        reveal_strlit("instance");
        assert(s == "instance"@);
        assert(crate::text::lacks(s, '-'));
        crate::text::lemma_split_lacking(s, '-');
        assert forall|k: int| 0 <= k < seq![s].len() implies (|w: Seq<char>| w.len() > 0)(#[trigger] seq![s][k]) by {
        }
        lemma_filter_all(seq![s], |w: Seq<char>| w.len() > 0);
        assert(slug_words(s) == seq![s]);
        assert(join_parts(seq![s], "-"@) == s);
    }
}

} // verus!
