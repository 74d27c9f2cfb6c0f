//! Installing a game version and its loader from the official manifests:
//! reading the version manifest, choosing loader versions, deciding which
//! library and native files to fetch from where, and checking what was
//! fetched against the published digests.
use vstd::prelude::*;
use crate::error::{AppError, AppResult};
use crate::text::{
    append, append_str, chars_of, contains, contains_seq, copy, copy_opt, find_first,
    first_occurrence, has_prefix, lit, slice, split, split_on, split_str, split_str_on,
    starts_with, str_eq, string_of, trim, trimmed, views,
};
use crate::json::{
    Json, JsonV, array_of, as_array, as_bool, as_str, at, get, json_views, pointer, str_of,
};
use crate::maven::{maven_rel, maven_rel_path};
use crate::paths::{join, path_join};
use crate::resolve::LockfileEntry;
use crate::text::{
    ends_with, has_prefix_str, has_suffix_str, oview, replace, replace_all, replace_char, lower,
    to_lower, eq, utf8_len, utf8_len_capped, byte_prefix, byte_prefix_or_all, contains_str,
};
use crate::digest::{
    digest_agrees, hex_encode, hex_of, sha1_digest, sha1_matches, sha1_of, sha512_digest, sha512_of,
};

verus! {

broadcast use vstd::string::group_string_axioms;

// ===========================================================================
// Game versions
// ===========================================================================

/// A game version as the version manifest lists it, with the manifest's
/// "latest" markers applied.
pub struct GameVersion {
    pub id: String,
    pub version_type: String,
    pub url: String,
    pub sha1: Option<String>,
    pub latest: bool,
    pub latest_snapshot: bool,
}

/// One entry of the version manifest's `versions` list.
pub struct ManifestVersion {
    pub id: String,
    pub version_type: String,
    pub url: String,
    pub sha1: Option<String>,
}

/// The version the manifest marks as latest snapshot: its `latest.snapshot`,
/// or the latest release when that is empty.
pub open spec fn snapshot_id(release: Seq<char>, snapshot: Seq<char>) -> Seq<char> {
    if snapshot.len() == 0 {
        release
    } else {
        snapshot
    }
}

/// The manifest's versions in their order, each marked as latest release
/// and/or latest snapshot by id.
pub fn game_versions(latest_release: &str, latest_snapshot: &str, versions: &Vec<ManifestVersion>) -> (r: Vec<GameVersion>)
    ensures
        r.len() == versions.len(),
        forall|i: int|
            0 <= i < r.len() ==> {
                &&& (#[trigger] r@[i]).id == versions@[i].id
                &&& r@[i].version_type == versions@[i].version_type
                &&& r@[i].url == versions@[i].url
                &&& r@[i].sha1 == versions@[i].sha1
                &&& r@[i].latest == (versions@[i].id@ == latest_release@)
                &&& r@[i].latest_snapshot == (versions@[i].id@ == snapshot_id(
                    latest_release@,
                    latest_snapshot@,
                ))
            },
{
    let snap: &str = if chars_of(latest_snapshot).len() == 0 {
        latest_release
    } else {
        latest_snapshot
    };
    let mut r: Vec<GameVersion> = Vec::new();
    let mut i: usize = 0;
    while i < versions.len()
        invariant
            i <= versions.len(),
            r.len() == i,
            snap@ == snapshot_id(latest_release@, latest_snapshot@),
            forall|k: int|
                0 <= k < i ==> {
                    &&& (#[trigger] r@[k]).id == versions@[k].id
                    &&& r@[k].version_type == versions@[k].version_type
                    &&& r@[k].url == versions@[k].url
                    &&& r@[k].sha1 == versions@[k].sha1
                    &&& r@[k].latest == (versions@[k].id@ == latest_release@)
                    &&& r@[k].latest_snapshot == (versions@[k].id@ == snap@)
                },
        decreases versions.len() - i,
    {
        let v = &versions[i];
        r.push(
            GameVersion {
                id: v.id.clone(),
                version_type: v.version_type.clone(),
                url: v.url.clone(),
                sha1: copy_opt(&v.sha1),
                latest: str_eq(v.id.as_str(), latest_release),
                latest_snapshot: str_eq(v.id.as_str(), snap),
            },
        );
        i += 1;
    }
    r
}

/// `i` is the first position whose flag is set.
pub open spec fn first_set_at(flags: Seq<bool>, i: int) -> bool {
    0 <= i < flags.len() && flags[i] && forall|j: int| 0 <= j < i ==> !flags[j]
}

/// The first position whose flag is set, if any.
pub open spec fn first_set(flags: Seq<bool>) -> Option<int> {
    if exists|i: int| first_set_at(flags, i) {
        Some(choose|i: int| first_set_at(flags, i))
    } else {
        None
    }
}

pub open spec fn latest_flags(vs: Seq<GameVersion>) -> Seq<bool> {
    vs.map_values(|v: GameVersion| v.latest)
}

pub open spec fn snapshot_flags(vs: Seq<GameVersion>) -> Seq<bool> {
    vs.map_values(|v: GameVersion| v.latest_snapshot)
}

/// The position of the first version flagged by `latest` (or by
/// `latest_snapshot` when `snapshot` is set).
fn first_flagged(versions: &Vec<GameVersion>, snapshot: bool) -> (r: Option<usize>)
    ensures
        match r {
            Some(i) => Some(i as int) == first_set(
                if snapshot {
                    snapshot_flags(versions@)
                } else {
                    latest_flags(versions@)
                },
            ),
            None => first_set(
                if snapshot {
                    snapshot_flags(versions@)
                } else {
                    latest_flags(versions@)
                },
            ) is None,
        },
{
    let ghost flags = if snapshot {
        snapshot_flags(versions@)
    } else {
        latest_flags(versions@)
    };
    let mut i: usize = 0;
    while i < versions.len()
        invariant
            i <= versions.len(),
            flags == if snapshot {
                snapshot_flags(versions@)
            } else {
                latest_flags(versions@)
            },
            forall|j: int| 0 <= j < i ==> !flags[j],
        decreases versions.len() - i,
    {
        let hit = if snapshot {
            versions[i].latest_snapshot
        } else {
            versions[i].latest
        };
        if hit {
            assert(first_set_at(flags, i as int));
            let ghost c = choose|c: int| first_set_at(flags, c);
            assert(c == i) by {
                if c > i {
                    assert(flags[i as int]);
                }
            }
            return Some(i);
        }
        i += 1;
    }
    None
}

/// Whether a requested version names one of the manifest's "latest" markers
/// (so that the manifest must be read to resolve it).
pub open spec fn names_latest(requested: Seq<char>) -> bool {
    requested == "latest-release"@ || requested == "latest"@ || requested == "latest-snapshot"@
}

pub fn needs_manifest(requested: &str) -> (b: bool)
    ensures
        b == names_latest(requested@),
{
    str_eq(requested, "latest-release") || str_eq(requested, "latest") || str_eq(
        requested,
        "latest-snapshot",
    )
}

/// Resolves a requested game version against the manifest's versions:
/// `latest-release`/`latest` give the first version marked latest release,
/// `latest-snapshot` the first marked latest snapshot (else the latest
/// release); any other text is taken as the version id itself.
pub fn resolve_game_version(requested: &str, versions: &Vec<GameVersion>) -> (r: AppResult<String>)
    ensures
        (requested@ == "latest-release"@ || requested@ == "latest"@) ==> match first_set(
            latest_flags(versions@),
        ) {
            Some(i) => r matches Ok(id) && id@ == versions@[i].id@,
            None => r matches Err(e) && e.message@ == "Could not resolve latest release"@,
        },
        (requested@ != "latest-release"@ && requested@ != "latest"@ && requested@
            == "latest-snapshot"@) ==> match first_set(snapshot_flags(versions@)) {
            Some(i) => r matches Ok(id) && id@ == versions@[i].id@,
            None => match first_set(latest_flags(versions@)) {
                Some(i) => r matches Ok(id) && id@ == versions@[i].id@,
                None => r matches Err(e) && e.message@ == "Could not resolve latest snapshot"@,
            },
        },
        !names_latest(requested@) ==> (r matches Ok(id) && id@ == requested@),
{
    if str_eq(requested, "latest-release") || str_eq(requested, "latest") {
        return match first_flagged(versions, false) {
            Some(i) => Ok(versions[i].id.clone()),
            None => Err(AppError::lit("Could not resolve latest release")),
        };
    }
    if str_eq(requested, "latest-snapshot") {
        let pick = match first_flagged(versions, true) {
            Some(i) => Some(i),
            None => first_flagged(versions, false),
        };
        return match pick {
            Some(i) => Ok(versions[i].id.clone()),
            None => Err(AppError::lit("Could not resolve latest snapshot")),
        };
    }
    Ok(lit(requested))
}

/// The manifest entry of `game_version`, refused when the manifest does not
/// list it.
pub fn find_game_version<'a>(versions: &'a Vec<GameVersion>, game_version: &str) -> (r: AppResult<&'a GameVersion>)
    ensures
        match r {
            Ok(v) => exists|i: int|
                0 <= i < versions.len() && versions@[i] == *v && v.id@ == game_version@ && forall|
                    j: int,
                |
                    0 <= j < i ==> (#[trigger] versions@[j]).id@ != game_version@,
            Err(e) => (forall|j: int|
                0 <= j < versions.len() ==> (#[trigger] versions@[j]).id@ != game_version@)
                && e.message@ == "Unknown game version "@ + game_version@,
        },
{
    let mut i: usize = 0;
    while i < versions.len()
        invariant
            i <= versions.len(),
            forall|j: int| 0 <= j < i ==> (#[trigger] versions@[j]).id@ != game_version@,
        decreases versions.len() - i,
    {
        if str_eq(versions[i].id.as_str(), game_version) {
            return Ok(&versions[i]);
        }
        i += 1;
    }
    let mut m = chars_of("Unknown game version ");
    append_str(&mut m, game_version);
    Err(AppError::msg(string_of(&m)))
}

// ===========================================================================
// Loader versions
// ===========================================================================

/// A loader version offered for a game version.
pub struct LoaderVersion {
    pub loader: String,
    pub version: String,
    pub stable: bool,
}

/// `s` without its leading run of `c` (std's `trim_start_matches` with a char).
pub open spec fn strip_leading(s: Seq<char>, c: char) -> Seq<char>
    decreases s.len(),
{
    if s.len() > 0 && s[0] == c {
        strip_leading(s.drop_first(), c)
    } else {
        s
    }
}

fn strip_leading_exec(s: &Vec<char>, c: char) -> (r: Vec<char>)
    ensures
        r@ == strip_leading(s@, c),
{
    let mut k: usize = 0;
    assert(s@.skip(0) =~= s@);
    while k < s.len() && s[k] == c
        invariant
            k <= s.len(),
            strip_leading(s@, c) == strip_leading(s@.skip(k as int), c),
        decreases s.len() - k,
    {
        assert(s@.skip(k as int).drop_first() =~= s@.skip(k + 1));
        k += 1;
    }
    let r = slice(s, k, s.len());
    assert(r@ =~= s@.skip(k as int));
    r
}

/// The Minecraft `major.minor` fields NeoForge numbers its releases by:
/// `1.21.1` gives `21` and `1`.
pub open spec fn neoforge_fields(game: Seq<char>) -> Seq<Seq<char>> {
    split(strip_leading(strip_leading(game, '1'), '.'), '.')
}

/// NeoForge `ver` belongs to Minecraft `game`: NeoForge `21.1.x` is for
/// Minecraft `1.21.1`. Game versions with fewer fields fall back to a
/// substring test.
pub open spec fn neoforge_accepts(ver: Seq<char>, game: Seq<char>) -> bool {
    let parts = neoforge_fields(game);
    if parts.len() >= 2 {
        starts_with(ver, parts[0] + seq!['.'] + parts[1] + seq!['.'])
    } else {
        contains_seq(ver, game)
    }
}

pub fn neoforge_matches(ver: &str, game: &str) -> (b: bool)
    ensures
        b == neoforge_accepts(ver@, game@),
{
    let g = chars_of(game);
    let stripped = strip_leading_exec(&strip_leading_exec(&g, '1'), '.');
    let parts = split_on(&stripped, '.');
    let v = chars_of(ver);
    if parts.len() >= 2 {
        let mut prefix = copy(&parts[0]);
        prefix.push('.');
        append(&mut prefix, &parts[1]);
        prefix.push('.');
        assert(prefix@ =~= views(parts@)[0] + seq!['.'] + views(parts@)[1] + seq!['.']);
        has_prefix(&v, &prefix)
    } else {
        contains(&v, &g)
    }
}

/// Whether a loader version belongs to the requested game version: Forge
/// versions start with `{game}-`, NeoForge ones follow [`neoforge_accepts`].
pub open spec fn loader_keeps(loader: Seq<char>, game: Option<Seq<char>>, ver: Seq<char>) -> bool {
    match game {
        None => true,
        Some(g) => if loader == "forge"@ {
            starts_with(ver, g + seq!['-'])
        } else if loader == "neoforge"@ {
            neoforge_accepts(ver, g)
        } else {
            true
        },
    }
}

/// A version without `beta` or `alpha` in it counts as stable.
pub open spec fn is_stable(ver: Seq<char>) -> bool {
    !contains_seq(ver, "beta"@) && !contains_seq(ver, "alpha"@)
}

/// The trimmed text before the first `</version>` of a piece of
/// `maven-metadata.xml`.
pub open spec fn version_text(raw: Seq<char>) -> Option<Seq<char>> {
    match first_occurrence(raw, "</version>"@) {
        Some(e) => Some(trim(raw.take(e))),
        None => None,
    }
}

/// The versions found in the pieces after each `<version>` tag, in document
/// order, keeping those that belong to the game version.
pub open spec fn maven_entries(pieces: Seq<Seq<char>>, loader: Seq<char>, game: Option<Seq<char>>) -> Seq<Seq<char>>
    decreases pieces.len(),
{
    if pieces.len() == 0 {
        Seq::empty()
    } else {
        let e = maven_entries(pieces.drop_last(), loader, game);
        match version_text(pieces.last()) {
            Some(v) => if loader_keeps(loader, game, v) {
                e.push(v)
            } else {
                e
            },
            None => e,
        }
    }
}

/// The versions a `maven-metadata.xml` offers: newest first (the document
/// lists them oldest first), at most forty.
pub open spec fn maven_listing(xml: Seq<char>, loader: Seq<char>, game: Option<Seq<char>>) -> Seq<Seq<char>> {
    let all = maven_entries(split_str(xml, "<version>"@).drop_first(), loader, game).reverse();
    if all.len() > 40 {
        all.take(40)
    } else {
        all
    }
}

pub open spec fn sopt(o: Option<&str>) -> Option<Seq<char>> {
    match o {
        Some(s) => Some(s@),
        None => None,
    }
}

fn loader_keeps_exec(loader: &str, game: Option<&str>, ver: &Vec<char>) -> (b: bool)
    ensures
        b == loader_keeps(loader@, sopt(game), ver@),
{
    proof {
        reveal_strlit("forge");
        reveal_strlit("neoforge");
        assert("forge"@.len() == 5 && "neoforge"@.len() == 8);
    }
    match game {
        None => true,
        Some(g) => {
            if str_eq(loader, "forge") {
                let mut p = chars_of(g);
                p.push('-');
                assert(p@ =~= g@ + seq!['-']);
                has_prefix(ver, &p)
            } else if str_eq(loader, "neoforge") {
                neoforge_matches(string_of(ver).as_str(), g)
            } else {
                true
            }
        },
    }
}

/// The loader versions listed by a Maven repository's `maven-metadata.xml`
/// (see [`maven_listing`]), for `game_filter` when given.
pub fn maven_loader_versions(xml: &str, loader: &str, game_filter: Option<&str>) -> (r: Vec<LoaderVersion>)
    ensures
        r.len() == maven_listing(xml@, loader@, sopt(game_filter)).len(),
        forall|i: int|
            0 <= i < r.len() ==> {
                let v = maven_listing(xml@, loader@, sopt(game_filter))[i];
                &&& (#[trigger] r@[i]).loader@ == loader@
                &&& r@[i].version@ == v
                &&& r@[i].stable == is_stable(v)
            },
{
    proof {
        reveal_strlit("<version>");
    }
    let open = chars_of("<version>");
    let close = chars_of("</version>");
    let pieces = split_str_on(&chars_of(xml), &open);
    let ghost ps = views(pieces@).drop_first();
    proof {
        crate::text::lemma_split_str_nonempty(xml@, open@);
    }
    let mut found: Vec<Vec<char>> = Vec::new();
    let mut i: usize = 1;
    assert(ps.take(0) =~= Seq::<Seq<char>>::empty());
    assert(views(found@) =~= maven_entries(ps.take(0), loader@, sopt(game_filter)));
    while i < pieces.len()
        invariant
            1 <= i <= pieces.len(),
            ps == views(pieces@).drop_first(),
            close@ == "</version>"@,
            views(found@) == maven_entries(ps.take(i - 1), loader@, sopt(game_filter)),
        decreases pieces.len() - i,
    {
        let raw = &pieces[i];
        assert(ps.take(i as int).drop_last() =~= ps.take(i - 1));
        assert(ps.take(i as int).last() == raw@);
        let ghost before = views(found@);
        match find_first(raw, &close) {
            Some(end) => {
                let ver = trimmed(&slice(raw, 0, end));
                assert(raw@.subrange(0, end as int) =~= raw@.take(end as int));
                if loader_keeps_exec(loader, game_filter, &ver) {
                    found.push(ver);
                    assert(views(found@) =~= before.push(ver@));
                }
            },
            None => {},
        }
        i += 1;
    }
    assert(ps.take(pieces.len() - 1) =~= ps);
    let ghost all = views(found@).reverse();
    let n = found.len();
    let count = if n > 40 { 40 } else { n };
    let mut r: Vec<LoaderVersion> = Vec::new();
    let mut k: usize = 0;
    while k < count
        invariant
            k <= count <= n,
            n == found.len(),
            count == if n > 40 { 40 } else { n },
            all == views(found@).reverse(),
            all == maven_entries(ps, loader@, sopt(game_filter)).reverse(),
            r.len() == k,
            forall|j: int|
                0 <= j < k ==> {
                    &&& (#[trigger] r@[j]).loader@ == loader@
                    &&& r@[j].version@ == all[j]
                    &&& r@[j].stable == is_stable(all[j])
                },
        decreases count - k,
    {
        let ver = &found[n - 1 - k];
        assert(all[k as int] == ver@);
        let stable = !contains(ver, &chars_of("beta")) && !contains(ver, &chars_of("alpha"));
        r.push(LoaderVersion { loader: lit(loader), version: string_of(ver), stable });
        k += 1;
    }
    assert(split_str(xml@, "<version>"@).drop_first() == ps);
    r
}

/// Where the versions of a loader come from.
pub enum LoaderListing {
    /// The versions are known without asking anyone (vanilla).
    Ready(Vec<LoaderVersion>),
    /// A Fabric-style meta service: the JSON list at `url`, read with
    /// [`fabric_loader_versions`].
    Meta { url: String, loader: String },
    /// A Maven repository: the `maven-metadata.xml` at `url`, read with
    /// [`maven_loader_versions`].
    Maven { url: String, loader: String },
}

/// `base/versions/loader/{game}`.
pub open spec fn meta_url(base: Seq<char>, game: Seq<char>) -> Seq<char> {
    base + "/versions/loader/"@ + game
}

fn meta_listing(base: &str, loader: &str, game: &str) -> (r: LoaderListing)
    ensures
        r matches LoaderListing::Meta { url, loader: l } && url@ == meta_url(base@, game@) && l@
            == loader@,
{
    let mut u = chars_of(base);
    append_str(&mut u, "/versions/loader/");
    append_str(&mut u, game);
    LoaderListing::Meta { url: string_of(&u), loader: lit(loader) }
}

/// Where to find the versions of `loader` for `game_version`: vanilla has
/// the game version itself; Fabric and Quilt ask their meta services;
/// Forge and NeoForge read their Maven metadata; other loaders are refused.
pub fn list_loader_versions(loader: &str, game_version: &str) -> (r: AppResult<LoaderListing>)
    ensures
        loader@ == "vanilla"@ ==> (r matches Ok(LoaderListing::Ready(v)) && v.len() == 1
            && v@[0].loader@ == "vanilla"@ && v@[0].version@ == game_version@ && v@[0].stable),
        loader@ == "fabric"@ ==> (r matches Ok(LoaderListing::Meta { url, loader: l }) && url@
            == meta_url("https://meta.fabricmc.net/v2"@, game_version@) && l@ == "fabric"@),
        loader@ == "quilt"@ ==> (r matches Ok(LoaderListing::Meta { url, loader: l }) && url@
            == meta_url("https://meta.quiltmc.org/v3"@, game_version@) && l@ == "quilt"@),
        loader@ == "forge"@ ==> (r matches Ok(LoaderListing::Maven { url, loader: l }) && url@
            == "https://maven.minecraftforge.net/net/minecraftforge/forge/maven-metadata.xml"@
            && l@ == "forge"@),
        loader@ == "neoforge"@ ==> (r matches Ok(LoaderListing::Maven { url, loader: l }) && url@
            == "https://maven.neoforged.net/releases/net/neoforged/neoforge/maven-metadata.xml"@
            && l@ == "neoforge"@),
        (loader@ != "vanilla"@ && loader@ != "fabric"@ && loader@ != "quilt"@ && loader@
            != "forge"@ && loader@ != "neoforge"@) ==> (r matches Err(e) && e.message@
            == "Unknown loader: "@ + loader@),
{
    proof {
        reveal_strlit("vanilla");
        reveal_strlit("fabric");
        reveal_strlit("quilt");
        reveal_strlit("forge");
        reveal_strlit("neoforge");
    }
    assert("vanilla"@.len() == 7 && "fabric"@.len() == 6 && "quilt"@.len() == 5);
    assert("forge"@.len() == 5 && "neoforge"@.len() == 8);
    assert("quilt"@[0] != "forge"@[0]);
    if str_eq(loader, "vanilla") {
        let mut v: Vec<LoaderVersion> = Vec::new();
        v.push(LoaderVersion { loader: lit("vanilla"), version: lit(game_version), stable: true });
        Ok(LoaderListing::Ready(v))
    } else if str_eq(loader, "fabric") {
        Ok(meta_listing("https://meta.fabricmc.net/v2", "fabric", game_version))
    } else if str_eq(loader, "quilt") {
        Ok(meta_listing("https://meta.quiltmc.org/v3", "quilt", game_version))
    } else if str_eq(loader, "forge") {
        Ok(
            LoaderListing::Maven {
                url: lit("https://maven.minecraftforge.net/net/minecraftforge/forge/maven-metadata.xml"),
                loader: lit("forge"),
            },
        )
    } else if str_eq(loader, "neoforge") {
        Ok(
            LoaderListing::Maven {
                url: lit(
                    "https://maven.neoforged.net/releases/net/neoforged/neoforge/maven-metadata.xml",
                ),
                loader: lit("neoforge"),
            },
        )
    } else {
        let mut m = chars_of("Unknown loader: ");
        append_str(&mut m, loader);
        Err(AppError::msg(string_of(&m)))
    }
}

/// The version of one entry of a meta service's list (`loader.version`).
pub open spec fn meta_entry_version(item: JsonV) -> Option<Seq<char>> {
    as_str(at(at(item, "loader"@), "version"@))
}

/// Whether an entry is marked stable (`loader.stable`, false when absent).
pub open spec fn meta_entry_stable(item: JsonV) -> bool {
    as_bool(at(at(item, "loader"@), "stable"@)) == Some(true)
}

/// The entries of a meta service's list that name a version, in order.
pub open spec fn meta_entries(items: Seq<JsonV>) -> Seq<JsonV>
    decreases items.len(),
{
    if items.len() == 0 {
        Seq::empty()
    } else {
        let e = meta_entries(items.drop_last());
        if meta_entry_version(items.last()) is Some {
            e.push(items.last())
        } else {
            e
        }
    }
}

/// The loader versions of a Fabric-style meta reply: one per entry that
/// names a version, in order; a reply that is not a list gives none.
pub fn fabric_loader_versions(reply: &Json, loader: &str) -> (r: Vec<LoaderVersion>)
    ensures
        ({
            let items = match as_array(reply@) {
                Some(a) => meta_entries(a),
                None => Seq::empty(),
            };
            &&& r.len() == items.len()
            &&& forall|i: int|
                0 <= i < r.len() ==> {
                    &&& (#[trigger] r@[i]).loader@ == loader@
                    &&& Some(r@[i].version@) == meta_entry_version(items[i])
                    &&& r@[i].stable == meta_entry_stable(items[i])
                }
        }),
{
    let mut r: Vec<LoaderVersion> = Vec::new();
    let items = match reply.as_array() {
        Some(a) => a,
        None => {
            return r;
        },
    };
    let ghost vs = json_views(items@);
    let ghost done: Seq<JsonV> = Seq::empty();
    let mut i: usize = 0;
    assert(vs.take(0) =~= Seq::<JsonV>::empty());
    while i < items.len()
        invariant
            i <= items.len(),
            vs == json_views(items@),
            done == meta_entries(vs.take(i as int)),
            r.len() == done.len(),
            forall|k: int|
                0 <= k < r.len() ==> {
                    &&& (#[trigger] r@[k]).loader@ == loader@
                    &&& Some(r@[k].version@) == meta_entry_version(done[k])
                    &&& r@[k].stable == meta_entry_stable(done[k])
                },
        decreases items.len() - i,
    {
        let item = &items[i];
        assert(vs.take(i + 1).drop_last() =~= vs.take(i as int));
        assert(vs.take(i + 1).last() == item@);
        let entry = match item.get("loader") {
            Some(l) => Some(l),
            None => None,
        };
        let version = match entry {
            Some(l) => match l.get("version") {
                Some(v) => v.as_str(),
                None => None,
            },
            None => None,
        };
        match version {
            Some(v) => {
                let stable = match entry {
                    Some(l) => match l.get("stable") {
                        Some(s) => s.as_bool() == Some(true),
                        None => false,
                    },
                    None => false,
                };
                r.push(LoaderVersion { loader: lit(loader), version: lit(v), stable });
                proof {
                    done = done.push(item@);
                }
            },
            None => {},
        }
        i += 1;
    }
    assert(vs.take(items.len() as int) =~= vs);
    r
}

// ===========================================================================
// Libraries and natives
// ===========================================================================

/// An absolute web address.
pub open spec fn is_http(u: Seq<char>) -> bool {
    starts_with(u, "https://"@) || starts_with(u, "http://"@)
}

fn is_http_exec(u: &Vec<char>) -> (b: bool)
    ensures
        b == is_http(u@),
{
    has_prefix_str(u, "https://") || has_prefix_str(u, "http://")
}

/// A library's `os` condition holds (rules of a library's own list: an `os`
/// object must name the current OS).
pub open spec fn lib_os_ok(rule: JsonV, os: Seq<char>) -> bool {
    match get(rule, "os"@) {
        None => true,
        Some(o) => as_str(at(o, "name"@)) == Some(os),
    }
}

/// The action of a rule, `allow` when it gives none.
pub open spec fn action_of(rule: JsonV) -> Seq<char> {
    match as_str(at(rule, "action"@)) {
        Some(a) => a,
        None => "allow"@,
    }
}

pub open spec fn lib_rules_fold(rules: Seq<JsonV>, os: Seq<char>) -> bool
    decreases rules.len(),
{
    if rules.len() == 0 {
        false
    } else {
        let prev = lib_rules_fold(rules.drop_last(), os);
        if lib_os_ok(rules.last(), os) {
            action_of(rules.last()) == "allow"@
        } else {
            prev
        }
    }
}

/// Whether a library applies on `os`: always without a rule list; otherwise
/// the last rule whose OS condition holds decides, and none means no.
pub open spec fn library_permits(lib: JsonV, os: Seq<char>) -> bool {
    match array_of(get(lib, "rules"@)) {
        None => true,
        Some(rs) => lib_rules_fold(rs, os),
    }
}

pub fn library_allowed(lib: &Json, os: &str) -> (b: bool)
    ensures
        b == library_permits(lib@, os@),
{
    let rules = match lib.get("rules") {
        Some(r) => r.as_array(),
        None => None,
    };
    let rules = match rules {
        Some(r) => r,
        None => {
            return true;
        },
    };
    let ghost rs = json_views(rules@);
    let mut allow = false;
    let mut i: usize = 0;
    while i < rules.len()
        invariant
            i <= rules.len(),
            rs == json_views(rules@),
            allow == lib_rules_fold(rs.take(i as int), os@),
        decreases rules.len() - i,
    {
        let rule = &rules[i];
        assert(rs.take(i + 1).drop_last() =~= rs.take(i as int));
        assert(rs.take(i + 1).last() == rule@);
        let action = match rule.get("action") {
            Some(a) => match a.as_str() {
                Some(x) => x,
                None => "allow",
            },
            None => "allow",
        };
        let os_ok = match rule.get("os") {
            None => true,
            Some(o) => match o.get("name") {
                Some(n) => match n.as_str() {
                    Some(name) => str_eq(name, os),
                    None => false,
                },
                None => false,
            },
        };
        if os_ok {
            allow = str_eq(action, "allow");
        }
        i += 1;
    }
    assert(rs.take(rules.len() as int) =~= rs);
    allow
}

/// The pointer width of this build, as Mojang's `${arch}` writes it.
pub fn native_arch() -> (r: &'static str)
    ensures
        r@ == if usize::BITS == 64 {
            "64"@
        } else {
            "32"@
        },
{
    if usize::BITS == 64 {
        "64"
    } else {
        "32"
    }
}

/// The natives classifier of a library on `os`: its `natives` entry for the
/// OS, with `${arch}` replaced.
pub open spec fn native_of(lib: JsonV, os: Seq<char>, arch: Seq<char>) -> Option<Seq<char>> {
    match pointer(lib, "/natives"@) {
        Some(n) => match get(n, os) {
            Some(c) => match as_str(c) {
                Some(cls) => Some(replace(cls, "${arch}"@, arch)),
                None => None,
            },
            None => None,
        },
        None => None,
    }
}

pub fn native_classifier(lib: &Json, os: &str, arch: &str) -> (r: Option<String>)
    ensures
        oview(r) == native_of(lib@, os@, arch@),
{
    match lib.pointer("/natives") {
        Some(n) => match n.get(os) {
            Some(c) => match c.as_str() {
                Some(cls) => {
                    let out = replace_all(&chars_of(cls), &chars_of("${arch}"), &chars_of(arch));
                    Some(string_of(&out))
                },
                None => None,
            },
            None => None,
        },
        None => None,
    }
}

/// The download address of a Maven library: the library's own repository
/// when it names an absolute one, else Mojang's, followed by the path of
/// its `name`.
pub open spec fn maven_url_of(lib: JsonV, name: Seq<char>) -> Seq<char> {
    let raw = match as_str(at(lib, "url"@)) {
        Some(u) => u,
        None => "https://libraries.minecraft.net/"@,
    };
    let base = if is_http(raw) {
        raw
    } else {
        "https://libraries.minecraft.net/"@
    };
    let dir = if ends_with(base, seq!['/']) {
        base
    } else {
        base + seq!['/']
    };
    dir + replace(maven_rel(name), seq!['\\'], seq!['/'])
}

fn with_slash(base: &Vec<char>) -> (r: Vec<char>)
    ensures
        r@ == if ends_with(base@, seq!['/']) {
            base@
        } else {
            base@ + seq!['/']
        },
{
    let mut b = copy(base);
    if base.len() > 0 && base[base.len() - 1] == '/' {
        assert(base@.skip(base.len() - 1) =~= seq!['/']);
        b
    } else {
        assert(!ends_with(base@, seq!['/'])) by {
            if ends_with(base@, seq!['/']) {
                assert(base@.skip(base.len() - 1)[0] == base@[base.len() - 1]);
            }
        }
        b.push('/');
        assert(b@ =~= base@ + seq!['/']);
        b
    }
}

pub fn maven_url(lib: &Json, name: &str) -> (r: Option<String>)
    ensures
        oview(r) == Some(maven_url_of(lib@, name@)),
{
    let raw = match lib.get("url") {
        Some(u) => match u.as_str() {
            Some(x) => chars_of(x),
            None => chars_of("https://libraries.minecraft.net/"),
        },
        None => chars_of("https://libraries.minecraft.net/"),
    };
    let base = if is_http_exec(&raw) {
        raw
    } else {
        chars_of("https://libraries.minecraft.net/")
    };
    let mut url = with_slash(&base);
    let path = replace_char(&chars_of(maven_rel_path(name).as_str()), '\\', '/');
    append(&mut url, &path);
    Some(string_of(&url))
}

/// The repository that hosts a library path by its group folders: Forge's
/// for `net/minecraftforge/` and `de/oceanlabs/`, NeoForge's for
/// `net/neoforged/`, Mojang's otherwise.
pub open spec fn maven_host(norm: Seq<char>) -> Seq<char> {
    if contains_seq(norm, "net/minecraftforge/"@) || contains_seq(norm, "de/oceanlabs/"@) {
        "https://maven.minecraftforge.net/"@
    } else if contains_seq(norm, "net/neoforged/"@) {
        "https://maven.neoforged.net/releases/"@
    } else {
        "https://libraries.minecraft.net/"@
    }
}

/// The address of a library artifact: its own absolute URL; else the Maven
/// address from the library's absolute repository and `name`; else the
/// repository guessed from the path, with the `name`'s path when there is a
/// name and the path itself otherwise.
pub open spec fn library_url_of(lib: JsonV, artifact_url: Option<Seq<char>>, path: Seq<char>) -> Seq<char> {
    let norm = replace(path, seq!['\\'], seq!['/']);
    if artifact_url is Some && is_http(artifact_url->0) {
        artifact_url->0
    } else if (match as_str(at(lib, "url"@)) {
        Some(u) => is_http(u),
        None => false,
    }) && as_str(at(lib, "name"@)) is Some {
        maven_url_of(lib, as_str(at(lib, "name"@))->0)
    } else {
        match as_str(at(lib, "name"@)) {
            Some(name) => maven_host(norm) + replace(maven_rel(name), seq!['\\'], seq!['/']),
            None => maven_host(norm) + norm,
        }
    }
}

fn maven_host_exec(norm: &Vec<char>) -> (r: Vec<char>)
    ensures
        r@ == maven_host(norm@),
{
    if crate::text::contains_str(norm, "net/minecraftforge/") || crate::text::contains_str(
        norm,
        "de/oceanlabs/",
    ) {
        chars_of("https://maven.minecraftforge.net/")
    } else if crate::text::contains_str(norm, "net/neoforged/") {
        chars_of("https://maven.neoforged.net/releases/")
    } else {
        chars_of("https://libraries.minecraft.net/")
    }
}

/// The download address of a library artifact (see [`library_url_of`]).
pub fn resolve_library_url(lib: &Json, artifact_url: Option<&str>, path: &str) -> (r: Option<String>)
    ensures
        oview(r) == Some(library_url_of(lib@, sopt(artifact_url), path@)),
{
    match artifact_url {
        Some(url) => {
            if is_http_exec(&chars_of(url)) {
                return Some(lit(url));
            }
        },
        None => {},
    }
    let lib_url_http = match lib.get("url") {
        Some(u) => match u.as_str() {
            Some(x) => is_http_exec(&chars_of(x)),
            None => false,
        },
        None => false,
    };
    let name = match lib.get("name") {
        Some(n) => n.as_str(),
        None => None,
    };
    if lib_url_http {
        match name {
            Some(n) => {
                return maven_url(lib, n);
            },
            None => {},
        }
    }
    let norm = replace_char(&chars_of(path), '\\', '/');
    let mut url = maven_host_exec(&norm);
    match name {
        Some(n) => {
            let p = replace_char(&chars_of(maven_rel_path(n).as_str()), '\\', '/');
            append(&mut url, &p);
        },
        None => {
            append(&mut url, &norm);
        },
    }
    Some(string_of(&url))
}

/// A file to fetch for a library: where from, where to, its published
/// SHA-1, and the source recorded in the lockfile.
pub struct LibraryFetch {
    pub url: String,
    pub dest: String,
    pub sha1: Option<String>,
    pub source: String,
}

/// The view of a fetch: address, destination, SHA-1 and source.
pub type FetchV = (Seq<char>, Seq<char>, Option<Seq<char>>, Seq<char>);

pub open spec fn fetch_view(f: LibraryFetch) -> FetchV {
    (f.url@, f.dest@, oview(f.sha1), f.source@)
}

pub open spec fn fetch_views(s: Seq<LibraryFetch>) -> Seq<FetchV> {
    s.map_values(|f: LibraryFetch| fetch_view(f))
}

/// The fetch an artifact entry (`path`, `url`, `sha1`) asks for: none
/// without a path or with an empty or missing URL (those files are produced
/// locally); the absolute URL as given; any other URL rebuilt by
/// [`library_url_of`].
pub open spec fn artifact_fetch(
    lib: JsonV,
    artifact: JsonV,
    root: Seq<char>,
    absolute_source: Seq<char>,
    rebuilt_source: Seq<char>,
) -> Seq<FetchV> {
    match as_str(at(artifact, "path"@)) {
        None => Seq::empty(),
        Some(path) => {
            let dest = join(root, path);
            let sha = as_str(at(artifact, "sha1"@));
            match as_str(at(artifact, "url"@)) {
                None => Seq::empty(),
                Some(url) => if is_http(url) {
                    seq![(url, dest, sha, absolute_source)]
                } else if url.len() == 0 {
                    Seq::empty()
                } else {
                    seq![(library_url_of(lib, Some(url), path), dest, sha, rebuilt_source)]
                },
            }
        },
    }
}

/// Everything to fetch for one library entry of a version document, under
/// the libraries folder `root`, on `os` with pointer width `arch`: nothing
/// when its rules exclude the OS; else its main artifact (or, without one,
/// the Maven file its `name` gives), then its natives for the OS.
pub open spec fn library_fetches(lib: JsonV, root: Seq<char>, os: Seq<char>, arch: Seq<char>) -> Seq<FetchV> {
    if !library_permits(lib, os) {
        Seq::empty()
    } else {
        let main = match pointer(lib, "/downloads/artifact"@) {
            Some(a) => artifact_fetch(lib, a, root, "mojang"@, "loader"@),
            None => match as_str(at(lib, "name"@)) {
                Some(n) => seq![(maven_url_of(lib, n), join(root, maven_rel(n)), None, "loader"@)],
                None => Seq::empty(),
            },
        };
        let natives = match native_of(lib, os, arch) {
            Some(c) => match pointer(lib, "/downloads/classifiers/"@ + c) {
                Some(a) => artifact_fetch(lib, a, root, "natives"@, "natives"@),
                None => Seq::empty(),
            },
            None => Seq::empty(),
        };
        main + natives
    }
}

fn push_artifact_fetch(
    out: &mut Vec<LibraryFetch>,
    lib: &Json,
    artifact: &Json,
    root: &Vec<char>,
    absolute_source: &str,
    rebuilt_source: &str,
)
    ensures
        fetch_views(final(out)@) == fetch_views(old(out)@) + artifact_fetch(
            lib@,
            artifact@,
            root@,
            absolute_source@,
            rebuilt_source@,
        ),
{
    let ghost start = fetch_views(out@);
    let path = match artifact.get("path") {
        Some(p) => p.as_str(),
        None => None,
    };
    let path = match path {
        Some(p) => p,
        None => {
            return;
        },
    };
    let dest = string_of(&path_join(root, &chars_of(path)));
    let sha = match artifact.get("sha1") {
        Some(x) => match x.as_str() {
            Some(h) => Some(lit(h)),
            None => None,
        },
        None => None,
    };
    let url = match artifact.get("url") {
        Some(u) => u.as_str(),
        None => None,
    };
    let url = match url {
        Some(u) => u,
        None => {
            return;
        },
    };
    let uv = chars_of(url);
    if is_http_exec(&uv) {
        out.push(LibraryFetch { url: lit(url), dest, sha1: sha, source: lit(absolute_source) });
        assert(fetch_views(out@) =~= start + artifact_fetch(
            lib@,
            artifact@,
            root@,
            absolute_source@,
            rebuilt_source@,
        ));
    } else if uv.len() == 0 {
    } else {
        let full = match resolve_library_url(lib, Some(url), path) {
            Some(f) => f,
            None => {
                return;
            },
        };
        out.push(LibraryFetch { url: full, dest, sha1: sha, source: lit(rebuilt_source) });
        assert(fetch_views(out@) =~= start + artifact_fetch(
            lib@,
            artifact@,
            root@,
            absolute_source@,
            rebuilt_source@,
        ));
    }
}

/// What to fetch for one library entry (see [`library_fetches`]).
pub fn library_downloads(lib: &Json, lib_root: &str, os: &str, arch: &str) -> (r: Vec<LibraryFetch>)
    ensures
        fetch_views(r@) == library_fetches(lib@, lib_root@, os@, arch@),
{
    let mut out: Vec<LibraryFetch> = Vec::new();
    if !library_allowed(lib, os) {
        assert(fetch_views(out@) =~= Seq::<FetchV>::empty());
        return out;
    }
    let root = chars_of(lib_root);
    match lib.pointer("/downloads/artifact") {
        Some(a) => {
            push_artifact_fetch(&mut out, lib, a, &root, "mojang", "loader");
        },
        None => {
            let name = match lib.get("name") {
                Some(n) => n.as_str(),
                None => None,
            };
            match name {
                Some(n) => {
                    match maven_url(lib, n) {
                        Some(url) => {
                            let dest = string_of(&path_join(&root, &chars_of(maven_rel_path(n).as_str())));
                            out.push(LibraryFetch { url, dest, sha1: None, source: lit("loader") });
                        },
                        None => {},
                    }
                },
                None => {},
            }
        },
    }
    let ghost main = fetch_views(out@);
    match native_classifier(lib, os, arch) {
        Some(c) => {
            let mut ptr = chars_of("/downloads/classifiers/");
            append(&mut ptr, &chars_of(c.as_str()));
            let ptr = string_of(&ptr);
            match lib.pointer(ptr.as_str()) {
                Some(a) => {
                    push_artifact_fetch(&mut out, lib, a, &root, "natives", "natives");
                },
                None => {},
            }
        },
        None => {},
    }
    assert(fetch_views(out@) =~= library_fetches(lib@, lib_root@, os@, arch@));
    out
}

impl LibraryFetch {
    /// The lockfile entry recording this fetched file: its destination,
    /// SHA-1 and source, with nothing else set.
    pub fn lock_entry(&self) -> (e: LockfileEntry)
        ensures
            e.path@ == self.dest@,
            oview(e.sha1) == oview(self.sha1),
            e.sha512 is None,
            e.source@ == self.source@,
            e.project_id is None,
            e.version_id is None,
            e.filename is None,
            !e.pinned,
            e.enabled,
    {
        let mut e = LockfileEntry::default();
        e.path = self.dest.clone();
        e.sha1 = copy_opt(&self.sha1);
        e.source = self.source.clone();
        e
    }
}

// ===========================================================================
// Install steps
// ===========================================================================

/// The client jar a version document offers: `downloads.client`, whose
/// `url` must be present, with its optional `sha1`.
pub fn client_download(version_json: &Json) -> (r: AppResult<Option<(String, Option<String>)>>)
    ensures
        match pointer(version_json@, "/downloads/client"@) {
            None => r matches Ok(None),
            Some(c) => match as_str(at(c, "url"@)) {
                None => r matches Err(e) && e.message@ == "Client URL missing"@,
                Some(u) => r matches Ok(Some((url, sha))) && url@ == u && oview(sha) == as_str(
                    at(c, "sha1"@),
                ),
            },
        },
{
    let client = match version_json.pointer("/downloads/client") {
        Some(c) => c,
        None => {
            return Ok(None);
        },
    };
    let url = match client.get("url") {
        Some(u) => u.as_str(),
        None => None,
    };
    let url = match url {
        Some(u) => lit(u),
        None => {
            return Err(AppError::lit("Client URL missing"));
        },
    };
    let sha = match client.get("sha1") {
        Some(x) => match x.as_str() {
            Some(h) => Some(lit(h)),
            None => None,
        },
        None => None,
    };
    Ok(Some((url, sha)))
}

/// Checks a downloaded version document against the manifest's SHA-1 when
/// the manifest gives one.
pub fn check_version_manifest(bytes: &[u8], expected: Option<&str>, game_version: &str) -> (r: AppResult<()>)
    ensures
        r is Ok <==> match expected {
            Some(x) => digest_agrees(hex_of(sha1_of(bytes@)), x@),
            None => true,
        },
        r matches Err(e) ==> e.message@ == "Version manifest SHA1 mismatch for "@ + game_version@,
{
    match expected {
        Some(x) => {
            if !sha1_matches(bytes, x) {
                let mut m = chars_of("Version manifest SHA1 mismatch for ");
                append_str(&mut m, game_version);
                return Err(AppError::msg(string_of(&m)));
            }
            Ok(())
        },
        None => Ok(()),
    }
}

/// The message of a digest mismatch.
pub open spec fn mismatch_message(kind: Seq<char>, path: Seq<char>, expected: Seq<char>, got: Seq<char>) -> Seq<char> {
    kind + " mismatch for "@ + path + ": expected "@ + expected + ", got "@ + got
}

fn mismatch(kind: &str, path: &str, expected: &str, got: &str) -> (e: AppError)
    ensures
        e.message@ == mismatch_message(kind@, path@, expected@, got@),
{
    let mut m = chars_of(kind);
    append_str(&mut m, " mismatch for ");
    append_str(&mut m, path);
    append_str(&mut m, ": expected ");
    append_str(&mut m, expected);
    append_str(&mut m, ", got ");
    append_str(&mut m, got);
    AppError::msg(string_of(&m))
}

/// Checks the bytes of the file at `path` against an expected SHA-1 (hex,
/// any letter case).
pub fn verify_sha1(path: &str, bytes: &[u8], expected: &str) -> (r: AppResult<()>)
    ensures
        r is Ok <==> digest_agrees(hex_of(sha1_of(bytes@)), expected@),
        r matches Err(e) ==> e.message@ == mismatch_message(
            "SHA1"@,
            path@,
            expected@,
            hex_of(sha1_of(bytes@)),
        ),
{
    let d = sha1_digest(bytes);
    let h = hex_encode(d.as_slice());
    if eq(&to_lower(&chars_of(h.as_str())), &to_lower(&chars_of(expected))) {
        Ok(())
    } else {
        Err(mismatch("SHA1", path, expected, h.as_str()))
    }
}

/// Checks the bytes of the file at `path` against an expected SHA-512.
pub fn verify_sha512(path: &str, bytes: &[u8], expected: &str) -> (r: AppResult<()>)
    ensures
        r is Ok <==> digest_agrees(hex_of(sha512_of(bytes@)), expected@),
        r matches Err(e) ==> e.message@ == mismatch_message(
            "SHA512"@,
            path@,
            expected@,
            hex_of(sha512_of(bytes@)),
        ),
{
    let d = sha512_digest(bytes);
    let h = hex_encode(d.as_slice());
    if eq(&to_lower(&chars_of(h.as_str())), &to_lower(&chars_of(expected))) {
        Ok(())
    } else {
        Err(mismatch("SHA512", path, expected, h.as_str()))
    }
}

/// Whether a file already on disk is kept instead of downloaded again:
/// when every given digest matches it and at least one is given, or when no
/// digest is given at all.
pub fn keep_existing(has_sha1: bool, has_sha512: bool, sha1_ok: bool, sha512_ok: bool) -> (b: bool)
    ensures
        b == (((!has_sha1 || sha1_ok) && (!has_sha512 || sha512_ok) && (has_sha1 || has_sha512)) || (
        !has_sha1 && !has_sha512)),
{
    let ok1 = !has_sha1 || sha1_ok;
    let ok512 = !has_sha512 || sha512_ok;
    if ok1 && ok512 && (has_sha1 || has_sha512) {
        return true;
    }
    !has_sha1 && !has_sha512
}

/// Where an asset object lives (under `objects_dir`, in the folder named by
/// the first two bytes of its hash) and where it is downloaded from; none
/// for hashes shorter than two bytes.
pub open spec fn asset_location_of(objects_dir: Seq<char>, hash: Seq<char>) -> Option<(Seq<char>, Seq<char>)> {
    if utf8_len(hash) < 2 {
        None
    } else {
        let p = byte_prefix_or_all(hash, 2);
        Some(
            (
                join(join(objects_dir, p), hash),
                "https://resources.download.minecraft.net"@ + seq!['/'] + p + seq!['/'] + hash,
            ),
        )
    }
}

/// The place and address of an asset object (see [`asset_location_of`]).
/// The two-byte folder name must end on a character boundary.
pub fn asset_location(objects_dir: &str, hash: &str) -> (r: Option<(String, String)>)
    requires
        utf8_len(hash@) < 2 || exists|k: int|
            0 <= k <= hash@.len() && utf8_len(#[trigger] hash@.take(k)) == 2,
    ensures
        match asset_location_of(objects_dir@, hash@) {
            None => r is None,
            Some((dest, url)) => r matches Some((d, u)) && d@ == dest && u@ == url,
        },
{
    let h = chars_of(hash);
    match utf8_len_capped(&h, 1) {
        Some(_) => {
            return None;
        },
        None => {},
    }
    let p = byte_prefix(&h, 2);
    let dest = path_join(&path_join(&chars_of(objects_dir), &p), &h);
    let mut url = chars_of("https://resources.download.minecraft.net");
    url.push('/');
    append(&mut url, &p);
    url.push('/');
    append(&mut url, &h);
    assert(url@ =~= "https://resources.download.minecraft.net"@ + seq!['/'] + p@ + seq!['/'] + h@);
    Some((string_of(&dest), string_of(&url)))
}

/// The asset index a version document names.
pub struct AssetIndexRef {
    pub url: String,
    pub id: String,
    pub sha1: Option<String>,
}

/// The asset index of a version document: none without `assetIndex.url`;
/// the id defaults to `legacy`.
pub fn asset_index_ref(version_json: &Json) -> (r: Option<AssetIndexRef>)
    ensures
        match str_of(pointer(version_json@, "/assetIndex/url"@)) {
            None => r is None,
            Some(u) => r matches Some(a) && a.url@ == u && a.id@ == match str_of(
                pointer(version_json@, "/assetIndex/id"@),
            ) {
                Some(i) => i,
                None => "legacy"@,
            } && oview(a.sha1) == str_of(pointer(version_json@, "/assetIndex/sha1"@)),
        },
{
    let url = match version_json.pointer("/assetIndex/url") {
        Some(u) => u.as_str(),
        None => None,
    };
    let url = match url {
        Some(u) => lit(u),
        None => {
            return None;
        },
    };
    let id = match version_json.pointer("/assetIndex/id") {
        Some(i) => match i.as_str() {
            Some(x) => lit(x),
            None => lit("legacy"),
        },
        None => lit("legacy"),
    };
    let sha1 = match version_json.pointer("/assetIndex/sha1") {
        Some(h) => match h.as_str() {
            Some(x) => Some(lit(x)),
            None => None,
        },
        None => None,
    };
    Some(AssetIndexRef { url, id, sha1 })
}

/// The hash of each object of an asset index, in order (`""` where an
/// object gives none); an index without an `objects` object gives none.
pub fn asset_hashes(index: &Json) -> (r: Vec<String>)
    ensures
        match get(index@, "objects"@) {
            Some(JsonV::Object(o)) => r.len() == o.len() && forall|i: int|
                0 <= i < o.len() ==> (#[trigger] r@[i])@ == match as_str(at(o[i].1, "hash"@)) {
                    Some(h) => h,
                    None => Seq::empty(),
                },
            _ => r.len() == 0,
        },
{
    let mut r: Vec<String> = Vec::new();
    let objects = match index.get("objects") {
        Some(o) => o.as_object(),
        None => None,
    };
    let objects = match objects {
        Some(o) => o,
        None => {
            return r;
        },
    };
    let ghost m = crate::json::as_object(get(index@, "objects"@)->Some_0)->Some_0;
    let mut i: usize = 0;
    while i < objects.len()
        invariant
            i <= objects.len(),
            m.len() == objects.len(),
            get(index@, "objects"@) == Some(JsonV::Object(m)),
            forall|k: int| 0 <= k < objects.len() ==> #[trigger] m[k] == (objects@[k].0@, objects@[k].1@),
            r.len() == i,
            forall|k: int|
                0 <= k < i ==> (#[trigger] r@[k])@ == match as_str(at(m[k].1, "hash"@)) {
                    Some(h) => h,
                    None => Seq::empty(),
                },
        decreases objects.len() - i,
    {
        let h = match objects[i].1.get("hash") {
            Some(x) => match x.as_str() {
                Some(t) => lit(t),
                None => String::new(),
            },
            None => String::new(),
        };
        assert(m[i as int].1 == objects@[i as int].1@);
        r.push(h);
        i += 1;
    }
    r
}

/// How the loader of an instance is installed after the vanilla files.
pub enum LoaderInstall {
    /// Nothing more to install.
    Vanilla,
    /// A Fabric-style profile from the meta service at `base`.
    FabricLike { base: String, name: String },
    /// The Forge or NeoForge installer.
    ForgeLike,
}

/// The loader install step for `loader`; unknown loaders are refused.
pub fn loader_install(loader: &str) -> (r: AppResult<LoaderInstall>)
    ensures
        loader@ == "vanilla"@ ==> r matches Ok(LoaderInstall::Vanilla),
        loader@ == "fabric"@ ==> (r matches Ok(LoaderInstall::FabricLike { base, name }) && base@
            == "https://meta.fabricmc.net/v2"@ && name@ == "fabric"@),
        loader@ == "quilt"@ ==> (r matches Ok(LoaderInstall::FabricLike { base, name }) && base@
            == "https://meta.quiltmc.org/v3"@ && name@ == "quilt"@),
        (loader@ == "forge"@ || loader@ == "neoforge"@) ==> r matches Ok(LoaderInstall::ForgeLike),
        (loader@ != "vanilla"@ && loader@ != "fabric"@ && loader@ != "quilt"@ && loader@
            != "forge"@ && loader@ != "neoforge"@) ==> (r matches Err(e) && e.message@
            == "Unsupported loader "@ + loader@),
{
    proof {
        reveal_strlit("vanilla");
        reveal_strlit("fabric");
        reveal_strlit("quilt");
        reveal_strlit("forge");
        reveal_strlit("neoforge");
    }
    assert("vanilla"@.len() == 7 && "fabric"@.len() == 6 && "quilt"@.len() == 5);
    assert("forge"@.len() == 5 && "neoforge"@.len() == 8);
    assert("quilt"@[0] != "forge"@[0]);
    if str_eq(loader, "vanilla") {
        Ok(LoaderInstall::Vanilla)
    } else if str_eq(loader, "fabric") {
        Ok(LoaderInstall::FabricLike { base: lit("https://meta.fabricmc.net/v2"), name: lit("fabric") })
    } else if str_eq(loader, "quilt") {
        Ok(LoaderInstall::FabricLike { base: lit("https://meta.quiltmc.org/v3"), name: lit("quilt") })
    } else if str_eq(loader, "forge") || str_eq(loader, "neoforge") {
        Ok(LoaderInstall::ForgeLike)
    } else {
        let mut m = chars_of("Unsupported loader ");
        append_str(&mut m, loader);
        Err(AppError::msg(string_of(&m)))
    }
}

/// Whether the loader version must be chosen from the published list (the
/// instance names none, or an empty one).
pub fn needs_loader_list(requested: &Option<String>) -> (b: bool)
    ensures
        b == match requested {
            Some(v) => v@.len() == 0,
            None => true,
        },
{
    match requested {
        Some(v) => chars_of(v.as_str()).len() == 0,
        None => true,
    }
}

/// `i` is the first offered version marked stable.
pub open spec fn first_stable_at(offered: Seq<LoaderVersion>, i: int) -> bool {
    0 <= i < offered.len() && offered[i].stable && forall|j: int|
        0 <= j < i ==> !(#[trigger] offered[j]).stable
}

/// The loader version to install: the instance's own when it names one,
/// else the first stable one offered, else the first offered; refused when
/// none is offered.
pub fn pick_loader_version(requested: &Option<String>, offered: &Vec<LoaderVersion>) -> (r: AppResult<String>)
    ensures
        match requested {
            Some(v) if v@.len() > 0 => r matches Ok(x) && x@ == v@,
            _ => if exists|i: int| first_stable_at(offered@, i) {
                r matches Ok(x) && exists|i: int|
                    first_stable_at(offered@, i) && x@ == offered@[i].version@
            } else if offered.len() > 0 {
                r matches Ok(x) && x@ == offered@[0].version@
            } else {
                r matches Err(e) && e.message@
                    == "No loader versions published for this game version"@
            },
        },
{
    match requested {
        Some(v) => {
            if chars_of(v.as_str()).len() > 0 {
                return Ok(v.clone());
            }
        },
        None => {},
    }
    let mut i: usize = 0;
    while i < offered.len()
        invariant
            i <= offered.len(),
            match requested {
                Some(v) => v@.len() == 0,
                None => true,
            },
            forall|j: int| 0 <= j < i ==> !(#[trigger] offered@[j]).stable,
        decreases offered.len() - i,
    {
        if offered[i].stable {
            assert(first_stable_at(offered@, i as int));
            return Ok(offered[i].version.clone());
        }
        i += 1;
    }
    assert(!exists|k: int| first_stable_at(offered@, k));
    if offered.len() > 0 {
        Ok(offered[0].version.clone())
    } else {
        Err(AppError::lit("No loader versions published for this game version"))
    }
}

/// The address of a Fabric-style loader profile.
pub open spec fn profile_url_of(base: Seq<char>, game: Seq<char>, loader_version: Seq<char>) -> Seq<char> {
    base + "/versions/loader/"@ + game + seq!['/'] + loader_version + "/profile/json"@
}

pub fn profile_url(base: &str, game: &str, loader_version: &str) -> (r: String)
    ensures
        r@ == profile_url_of(base@, game@, loader_version@),
{
    let mut u = chars_of(base);
    append_str(&mut u, "/versions/loader/");
    append_str(&mut u, game);
    u.push('/');
    append_str(&mut u, loader_version);
    append_str(&mut u, "/profile/json");
    assert(u@ =~= profile_url_of(base@, game@, loader_version@));
    string_of(&u)
}

/// Where an entry of a natives jar is extracted: under `natives_dir`;
/// folders and `META-INF` entries are skipped.
pub open spec fn native_entry_of(natives_dir: Seq<char>, name: Seq<char>) -> Option<Seq<char>> {
    if ends_with(name, seq!['/']) || contains_seq(name, "META-INF"@) {
        None
    } else {
        Some(join(natives_dir, name))
    }
}

pub fn native_entry_dest(natives_dir: &str, name: &str) -> (r: Option<String>)
    ensures
        oview(r) == native_entry_of(natives_dir@, name@),
{
    let n = chars_of(name);
    let slash = vec!['/'];
    assert(slash@ =~= seq!['/']);
    if crate::text::has_suffix(&n, &slash) || contains_str(&n, "META-INF") {
        None
    } else {
        Some(string_of(&path_join(&chars_of(natives_dir), &n)))
    }
}

} // verus!
