//! The Modrinth catalog: result records, release channels, primary files
//! and the search request a set of filters makes.
use vstd::prelude::*;
use crate::digest::{hex_encode, hex_of, percent_encoded, sha256_digest, sha256_of, url_encode};
use crate::error::{AppError, AppResult};
use crate::text::{
    append, append_str, cat, chars_of, decimal, decimal_of, eq_str, lit, oview, str_eq, string_of, views,
};
use crate::json::{
    Json, JsonV, as_bool, as_str, as_u64, at, bool_field, get, json_views, pointer, str_field,
    str_field_or, str_of, str_or, string_array, string_array_of, strings_in, u64_field,
};

verus! {

/// The Modrinth API root.
pub open spec fn modrinth_api() -> Seq<char> {
    "https://api.modrinth.com/v2"@
}

/// One search hit.
pub struct ProjectHit {
    pub id: String,
    pub slug: String,
    pub title: String,
    pub description: String,
    pub source: String,
    pub loaders: Vec<String>,
    pub game_versions: Vec<String>,
    pub icon_url: Option<String>,
    pub downloads: u64,
    pub project_type: String,
    pub categories: Vec<String>,
}

/// One category tag.
pub struct CatalogCategory {
    pub name: String,
    pub project_type: String,
    pub header: Option<String>,
}

/// One gallery image of a project.
pub struct GalleryImage {
    pub url: String,
    pub title: Option<String>,
    pub description: Option<String>,
    pub featured: bool,
}

/// One donation link of a project.
pub struct DonationLink {
    pub id: String,
    pub platform: String,
    pub url: String,
}

/// One team member of a project.
pub struct ProjectMember {
    pub user_id: String,
    pub name: String,
    pub role: String,
    pub avatar_url: Option<String>,
}

/// A project page.
pub struct ProjectDetail {
    pub id: String,
    pub slug: String,
    pub title: String,
    pub description: String,
    pub body: Option<String>,
    pub source: String,
    pub icon_url: Option<String>,
    pub loaders: Vec<String>,
    pub game_versions: Vec<String>,
    pub license: Option<String>,
    pub project_url: String,
    pub project_type: String,
    pub categories: Vec<String>,
    pub gallery: Vec<GalleryImage>,
    pub members: Vec<ProjectMember>,
    pub downloads: u64,
    pub followers: u64,
    pub published: Option<String>,
    pub updated: Option<String>,
    pub source_url: Option<String>,
    pub issues_url: Option<String>,
    pub wiki_url: Option<String>,
    pub discord_url: Option<String>,
    pub donation_urls: Vec<DonationLink>,
}

/// The project type a project page has when it names none.
pub fn default_project_type() -> (r: String)
    ensures
        r@ == "mod"@,
{
    lit("mod")
}

/// One downloadable file of a version.
pub struct CatalogFile {
    pub url: String,
    pub filename: String,
    pub primary: bool,
    pub sha1: Option<String>,
    pub sha512: Option<String>,
    pub size: u64,
}

/// One dependency of a version.
pub struct CatalogDependency {
    pub project_id: Option<String>,
    pub version_id: Option<String>,
    pub dependency_type: String,
}

/// One version of a project.
pub struct CatalogVersion {
    pub id: String,
    pub project_id: String,
    pub name: String,
    pub version_number: String,
    pub channel: String,
    pub loaders: Vec<String>,
    pub game_versions: Vec<String>,
    pub featured: bool,
    pub files: Vec<CatalogFile>,
    pub dependencies: Vec<CatalogDependency>,
    pub date_published: Option<String>,
}

/// One page of results.
pub struct Page<T> {
    pub hits: Vec<T>,
    pub offset: u32,
    pub total: u32,
}

/// What a catalog search asks for.
pub struct SearchFilters {
    pub query: Option<String>,
    pub source: Option<String>,
    pub loaders: Option<Vec<String>>,
    pub game_versions: Option<Vec<String>>,
    pub project_types: Option<Vec<String>>,
    pub categories: Option<Vec<String>>,
    pub index: Option<String>,
    pub offset: Option<u32>,
    pub limit: Option<u32>,
    pub channel: Option<String>,
}

/// A catalog source and whether it can be used.
pub struct CatalogProvider {
    pub id: String,
    pub label: String,
    pub enabled: bool,
    pub reason: Option<String>,
}

/// The catalog sources: Modrinth, enabled; CurseForge, disabled until a
/// licensed API key exists.
pub fn providers() -> (r: Vec<CatalogProvider>)
    ensures
        r@.len() == 2,
        r@[0].id@ == "modrinth"@,
        r@[0].label@ == "Modrinth"@,
        r@[0].enabled,
        r@[0].reason is None,
        r@[1].id@ == "curseforge"@,
        r@[1].label@ == "CurseForge"@,
        !r@[1].enabled,
        oview(r@[1].reason)
            == Some("Hidden until a licensed API key is configured. Aureum will not scrape."@),
{
    let mut r: Vec<CatalogProvider> = Vec::new();
    r.push(CatalogProvider { id: lit("modrinth"), label: lit("Modrinth"), enabled: true, reason: None });
    r.push(
        CatalogProvider {
            id: lit("curseforge"),
            label: lit("CurseForge"),
            enabled: false,
            reason: Some(
                lit("Hidden until a licensed API key is configured. Aureum will not scrape."),
            ),
        },
    );
    r
}

/// Every catalog source has a stable id.
pub trait CatalogAdapter {
    fn id(&self) -> (r: String);
}

/// The Modrinth catalog.
pub struct ModrinthAdapter;

impl CatalogAdapter for ModrinthAdapter {
    fn id(&self) -> (r: String)
        ensures
            r@ == "modrinth"@,
    {
        lit("modrinth")
    }
}

/// A release channel filter admits a version type: `stable` admits
/// releases, `beta` releases and betas, anything else every version.
pub open spec fn channel_admits(filter: Seq<char>, version_type: Seq<char>) -> bool {
    if filter == "stable"@ {
        version_type == "release"@
    } else if filter == "beta"@ {
        version_type == "release"@ || version_type == "beta"@
    } else {
        true
    }
}

/// Release channels are nested: every channel admits releases; the `beta`
/// channel admits whatever `stable` admits; and every channel but `stable`
/// admits betas and whatever `beta` admits.
pub proof fn law_channels_nested(filter: Seq<char>, version_type: Seq<char>)
    ensures
        channel_admits(filter, "release"@),
        channel_admits("stable"@, version_type) ==> channel_admits("beta"@, version_type),
        filter != "stable"@ ==> channel_admits(filter, "beta"@),
        filter != "stable"@ && channel_admits("beta"@, version_type) ==> channel_admits(filter, version_type),
{
    reveal_strlit("stable");
    reveal_strlit("beta");
    reveal_strlit("release");
}

pub fn channel_allows(filter: &str, version_type: &str) -> (b: bool)
    ensures
        b == channel_admits(filter@, version_type@),
{
    if str_eq(filter, "stable") {
        str_eq(version_type, "release")
    } else if str_eq(filter, "beta") {
        str_eq(version_type, "release") || str_eq(version_type, "beta")
    } else {
        true
    }
}

/// The first primary file among `files`, if any.
pub open spec fn first_primary(files: Seq<CatalogFile>) -> Option<CatalogFile>
    decreases files.len(),
{
    if files.len() == 0 {
        None
    } else if files[0].primary {
        Some(files[0])
    } else {
        first_primary(files.drop_first())
    }
}

/// The file a version with `files` installs: its first primary file, else
/// its first file; none when it has no file.
pub open spec fn primary_choice(files: Seq<CatalogFile>) -> Option<CatalogFile> {
    if files.len() == 0 {
        None
    } else {
        match first_primary(files) {
            Some(f) => Some(f),
            None => Some(files[0]),
        }
    }
}

/// The key a downloaded file is cached under: its SHA-512, else its SHA-1,
/// else the id of its version.
pub open spec fn cache_key(f: CatalogFile, version_id: Seq<char>) -> Seq<char> {
    match oview(f.sha512) {
        Some(h) => h,
        None => match oview(f.sha1) {
            Some(h) => h,
            None => version_id,
        },
    }
}

/// The cache key of `file` (see [`cache_key`]).
pub fn file_cache_key(file: &CatalogFile, version_id: &str) -> (r: String)
    ensures
        r@ == cache_key(*file, version_id@),
{
    match &file.sha512 {
        Some(h) => h.clone(),
        None => match &file.sha1 {
            Some(h) => h.clone(),
            None => lit(version_id),
        },
    }
}

/// The file a version installs: its first primary file, else its first file.
pub fn primary_file(version: &CatalogVersion) -> (r: AppResult<&CatalogFile>)
    ensures
        match r {
            Ok(f) => primary_choice(version.files@) == Some(*f),
            Err(e) => primary_choice(version.files@) is None && e.message@
                == "Version has no downloadable files"@,
        },
{
    let mut i: usize = 0;
    assert(version.files@.skip(0) =~= version.files@);
    while i < version.files.len()
        invariant
            i <= version.files.len(),
            forall|j: int| 0 <= j < i ==> !(#[trigger] version.files@[j]).primary,
            first_primary(version.files@) == first_primary(version.files@.skip(i as int)),
        decreases version.files.len() - i,
    {
        assert(version.files@.skip(i as int).drop_first() =~= version.files@.skip(i + 1));
        if version.files[i].primary {
            return Ok(&version.files[i]);
        }
        i += 1;
    }
    assert(version.files@.skip(i as int) =~= Seq::<CatalogFile>::empty());
    if version.files.len() > 0 {
        Ok(&version.files[0])
    } else {
        Err(AppError::lit("Version has no downloadable files"))
    }
}

/// The name of the cache file of a catalog URL: the hex SHA-256 of the URL
/// text, with `.json`.
pub fn cache_name(url: &str) -> (r: String)
    ensures
        r@ == hex_of(sha256_of(vstd::utf8::encode_utf8(url@))) + ".json"@,
{
    let d = sha256_digest(url.as_bytes());
    let h = hex_encode(d.as_slice());
    let mut v = chars_of(h.as_str());
    append_str(&mut v, ".json");
    string_of(&v)
}

// ---------------------------------------------------------------------------
// The search request
// ---------------------------------------------------------------------------

#[verifier::external_type_specification]
#[verifier::external_body]
pub struct ExJsonError(serde_json::Error);

/// One character of a string as `serde_json` writes it: `"` and `\`
/// escaped, the control characters below U+0020 as `\b`, `\t`, `\n`,
/// `\f`, `\r` or `\u00XX` (lower-case hex), every other character as it is.
pub open spec fn json_char(c: char) -> Seq<char> {
    if c == '"' {
        seq!['\\', '"']
    } else if c == '\\' {
        seq!['\\', '\\']
    } else if c == '\x08' {
        seq!['\\', 'b']
    } else if c == '\t' {
        seq!['\\', 't']
    } else if c == '\n' {
        seq!['\\', 'n']
    } else if c == '\x0c' {
        seq!['\\', 'f']
    } else if c == '\r' {
        seq!['\\', 'r']
    } else if (c as u32) < 0x20 {
        seq!['\\', 'u', '0', '0', crate::digest::hex_digit((c as u32 / 16) as u8), crate::digest::hex_digit((c as u32 % 16) as u8)]
    } else {
        seq![c]
    }
}

/// The characters of a string, each written by [`json_char`].
pub open spec fn json_chars(s: Seq<char>) -> Seq<char>
    decreases s.len(),
{
    if s.len() == 0 {
        Seq::empty()
    } else {
        json_chars(s.drop_last()) + json_char(s.last())
    }
}

/// A string as a JSON string literal.
pub open spec fn json_string(s: Seq<char>) -> Seq<char> {
    seq!['"'] + json_chars(s) + seq!['"']
}

/// The JSON text `serde_json` writes for an array of strings: `["a","b"]`,
/// with no spaces.
pub open spec fn json_list_of(items: Seq<Seq<char>>) -> Seq<char> {
    seq!['['] + crate::text::join(items.map_values(|s: Seq<char>| json_string(s)), seq![',']) + seq![']']
}

/// The JSON text `serde_json` writes for an array of arrays of strings:
/// `[["a"],["b","c"]]`, with no spaces.
pub open spec fn json_rows_of(rows: Seq<Seq<Seq<char>>>) -> Seq<char> {
    seq!['['] + crate::text::join(rows.map_values(|r: Seq<Seq<char>>| json_list_of(r)), seq![',']) + seq![']']
}

pub open spec fn rows_view(rows: Seq<Vec<String>>) -> Seq<Seq<Seq<char>>> {
    rows.map_values(|r: Vec<String>| r@.map_values(|s: String| s@))
}

/// Calls `serde_json::to_string` on the facet rows, whose text is
/// [`json_rows_of`] (its compact formatter: no spaces, escapes as in
/// [`json_char`]). Writing strings into memory cannot fail, so the call
/// always succeeds.
#[verifier::external_body]
fn json_rows(rows: &Vec<Vec<String>>) -> (r: Result<String, serde_json::Error>)
    ensures
        r is Ok,
        r matches Ok(s) ==> s@ == json_rows_of(rows_view(rows@)),
{
    serde_json::to_string(rows)
}

/// The values of an optional list.
pub open spec fn strs(o: Option<Vec<String>>) -> Seq<Seq<char>> {
    match o {
        Some(v) => v@.map_values(|s: String| s@),
        None => Seq::empty(),
    }
}

/// The facet of one filter list: its values other than blanks, `all` and
/// `skip`, each after `prefix`.
pub open spec fn facet_row(vals: Seq<Seq<char>>, prefix: Seq<char>, skip: Seq<char>) -> Seq<Seq<char>> {
    vals.filter(|v: Seq<char>| v.len() > 0 && v != "all"@ && v != skip).map_values(
        |v: Seq<char>| prefix + v,
    )
}

/// Appends a facet row unless it is empty.
pub open spec fn with_row(rows: Seq<Seq<Seq<char>>>, row: Seq<Seq<char>>) -> Seq<Seq<Seq<char>>> {
    if row.len() > 0 {
        rows.push(row)
    } else {
        rows
    }
}

/// The facet rows of a search: the project types (mods when none), then the
/// loaders (vanilla aside), game versions and categories that are given.
pub open spec fn facet_rows(f: SearchFilters) -> Seq<Seq<Seq<char>>> {
    let types = facet_row(strs(f.project_types), "project_type:"@, "all"@);
    let first = if types.len() == 0 {
        seq![seq!["project_type:mod"@]]
    } else {
        seq![types]
    };
    let a = with_row(first, facet_row(strs(f.loaders), "categories:"@, "vanilla"@));
    let b = with_row(a, facet_row(strs(f.game_versions), "versions:"@, "all"@));
    with_row(b, facet_row(strs(f.categories), "categories:"@, "all"@))
}

/// The sort index of a search: one Modrinth knows, else relevance.
pub open spec fn sort_index(f: SearchFilters) -> Seq<char> {
    match f.index {
        Some(i) => if i@ == "downloads"@ || i@ == "follows"@ || i@ == "newest"@ || i@
            == "updated"@ {
            i@
        } else {
            "relevance"@
        },
        None => "relevance"@,
    }
}

/// The page size of a search: 20 by default, kept within 1..=100.
pub open spec fn page_limit(f: SearchFilters) -> u32 {
    let l = match f.limit {
        Some(l) => l,
        None => 20,
    };
    if l < 1 {
        1
    } else if l > 100 {
        100
    } else {
        l
    }
}

pub open spec fn page_offset(f: SearchFilters) -> u32 {
    match f.offset {
        Some(o) => o,
        None => 0,
    }
}

/// The search URL of a set of filters.
pub open spec fn search_url_of(f: SearchFilters) -> Seq<char> {
    let query = match f.query {
        Some(q) => q@,
        None => Seq::empty(),
    };
    modrinth_api() + "/search?query="@ + percent_encoded(vstd::utf8::encode_utf8(query))
        + "&limit="@ + decimal(page_limit(f) as nat) + "&offset="@ + decimal(page_offset(f) as nat)
        + "&index="@ + sort_index(f) + "&facets="@ + percent_encoded(
        vstd::utf8::encode_utf8(json_rows_of(facet_rows(f))),
    )
}

/// Searches only Modrinth: another source is refused.
pub open spec fn source_ok(f: SearchFilters) -> bool {
    match f.source {
        Some(s) => s@ == "modrinth"@ || s@ == "all"@,
        None => true,
    }
}

fn opt_strs(o: &Option<Vec<String>>) -> (r: Vec<Vec<char>>)
    ensures
        views(r@) == strs(*o),
{
    let mut r: Vec<Vec<char>> = Vec::new();
    match o {
        Some(v) => {
            let mut i: usize = 0;
            while i < v.len()
                invariant
                    i <= v.len(),
                    views(r@) == v@.take(i as int).map_values(|s: String| s@),
                decreases v.len() - i,
            {
                let ghost r0 = r@;
                r.push(chars_of(v[i].as_str()));
                i += 1;
                assert(views(r@) =~= views(r0).push(v@[i - 1]@));
                assert(v@.take(i as int).map_values(|s: String| s@) =~= v@.take(i - 1).map_values(
                    |s: String| s@,
                ).push(v@[i - 1]@));
            }
            assert(v@.take(v.len() as int) == v@);
        },
        None => {},
    }
    r
}

fn build_row(vals: &Vec<Vec<char>>, prefix: &str, skip: &str) -> (r: Vec<String>)
    ensures
        r@.map_values(|s: String| s@) == facet_row(views(vals@), prefix@, skip@),
{
    let ghost vv = views(vals@);
    let ghost keep = |v: Seq<char>| v.len() > 0 && v != "all"@ && v != skip@;
    let ghost pre = |v: Seq<char>| prefix@ + v;
    let mut r: Vec<String> = Vec::new();
    let mut i: usize = 0;
    while i < vals.len()
        invariant
            i <= vals.len(),
            vv == views(vals@),
            keep == (|v: Seq<char>| v.len() > 0 && v != "all"@ && v != skip@),
            pre == (|v: Seq<char>| prefix@ + v),
            r@.map_values(|s: String| s@) == vv.take(i as int).filter(keep).map_values(pre),
        decreases vals.len() - i,
    {
        proof {
            reveal_with_fuel(Seq::filter, 1);
            assert(vv.take(i + 1).drop_last() == vv.take(i as int));
        }
        let v = &vals[i];
        if v.len() > 0 && !eq_str(v, "all") && !eq_str(v, skip) {
            let ghost r0 = r@;
            let mut e = chars_of(prefix);
            append(&mut e, v);
            r.push(string_of(&e));
            assert(r@.map_values(|s: String| s@) =~= r0.map_values(|s: String| s@).push(
                prefix@ + vv[i as int],
            ));
            assert(vv.take(i + 1).filter(keep) == vv.take(i as int).filter(keep).push(vv[i as int]));
            assert(vv.take(i + 1).filter(keep).map_values(pre) =~= vv.take(i as int).filter(
                keep,
            ).map_values(pre).push(pre(vv[i as int])));
        } else {
            assert(vv.take(i + 1).filter(keep) == vv.take(i as int).filter(keep));
        }
        i += 1;
    }
    assert(vv.take(vals.len() as int) == vv);
    r
}

/// The search URL a set of filters makes, and the page offset; a source
/// other than Modrinth (or `all`) is refused.
pub fn search_url(filters: &SearchFilters) -> (r: AppResult<(String, u32)>)
    ensures
        r is Ok <==> source_ok(*filters),
        match r {
            Ok((url, offset)) => source_ok(*filters) && url@ == search_url_of(*filters) && offset
                == page_offset(*filters),
            Err(e) => if source_ok(*filters) {
                e.message@ == "Could not encode search facets"@
            } else {
                e.message@
                    == "That catalog source is not enabled. CurseForge stays hidden until a licensed API key exists."@
            },
        },
{
    match &filters.source {
        Some(s) => {
            if !str_eq(s.as_str(), "modrinth") && !str_eq(s.as_str(), "all") {
                return Err(
                    AppError::lit(
                        "That catalog source is not enabled. CurseForge stays hidden until a licensed API key exists.",
                    ),
                );
            }
        },
        None => {},
    }
    let offset: u32 = match filters.offset {
        Some(o) => o,
        None => 0,
    };
    let raw_limit: u32 = match filters.limit {
        Some(l) => l,
        None => 20,
    };
    let limit: u32 = if raw_limit < 1 {
        1
    } else if raw_limit > 100 {
        100
    } else {
        raw_limit
    };
    let index = match &filters.index {
        Some(i) => {
            if str_eq(i.as_str(), "downloads") || str_eq(i.as_str(), "follows") || str_eq(
                i.as_str(),
                "newest",
            ) || str_eq(i.as_str(), "updated") {
                i.clone()
            } else {
                lit("relevance")
            }
        },
        None => lit("relevance"),
    };
    let mut rows: Vec<Vec<String>> = Vec::new();
    let types = build_row(&opt_strs(&filters.project_types), "project_type:", "all");
    let ghost t = facet_row(strs(filters.project_types), "project_type:"@, "all"@);
    if types.len() == 0 {
        let one: Vec<String> = vec![lit("project_type:mod")];
        assert(one@.map_values(|s: String| s@) =~= seq!["project_type:mod"@]);
        rows.push(one);
        assert(rows_view(rows@) =~= seq![seq!["project_type:mod"@]]);
    } else {
        rows.push(types);
        assert(rows_view(rows@) =~= seq![t]);
    }
    let ghost r0 = rows_view(rows@);
    let loaders = build_row(&opt_strs(&filters.loaders), "categories:", "vanilla");
    if loaders.len() > 0 {
        rows.push(loaders);
    }
    assert(rows_view(rows@) =~= with_row(r0, facet_row(strs(filters.loaders), "categories:"@, "vanilla"@)));
    let ghost r1 = rows_view(rows@);
    let versions = build_row(&opt_strs(&filters.game_versions), "versions:", "all");
    if versions.len() > 0 {
        rows.push(versions);
    }
    assert(rows_view(rows@) =~= with_row(r1, facet_row(strs(filters.game_versions), "versions:"@, "all"@)));
    let ghost r2 = rows_view(rows@);
    let categories = build_row(&opt_strs(&filters.categories), "categories:", "all");
    if categories.len() > 0 {
        rows.push(categories);
    }
    assert(rows_view(rows@) =~= with_row(r2, facet_row(strs(filters.categories), "categories:"@, "all"@)));
    assert(rows_view(rows@) == facet_rows(*filters));
    let facets_json = match json_rows(&rows) {
        Ok(j) => j,
        Err(_) => {
            return Err(AppError::lit("Could not encode search facets"));
        },
    };
    let query = match &filters.query {
        Some(q) => q.clone(),
        None => String::new(),
    };
    let mut url = chars_of("https://api.modrinth.com/v2");
    append_str(&mut url, "/search?query=");
    append(&mut url, &chars_of(url_encode(query.as_str()).as_str()));
    append_str(&mut url, "&limit=");
    append(&mut url, &decimal_of(limit as u64));
    append_str(&mut url, "&offset=");
    append(&mut url, &decimal_of(offset as u64));
    append_str(&mut url, "&index=");
    append(&mut url, &chars_of(index.as_str()));
    append_str(&mut url, "&facets=");
    append(&mut url, &chars_of(url_encode(facets_json.as_str()).as_str()));
    Ok((string_of(&url), offset))
}

// ---------------------------------------------------------------------------
// Reading Modrinth replies
// ---------------------------------------------------------------------------

/// The unsigned member `key` of `v`, 0 when absent or not an unsigned integer.
pub open spec fn u64_or_zero(v: JsonV, key: Seq<char>) -> u64 {
    match get(v, key) {
        Some(x) => match as_u64(x) {
            Some(n) => n,
            None => 0,
        },
        None => 0,
    }
}

/// The boolean member `key` of `v`, false when absent.
pub open spec fn flag(v: JsonV, key: Seq<char>) -> bool {
    let b = match get(v, key) {
        Some(x) => as_bool(x),
        None => None,
    };
    b == Some(true)
}

pub open spec fn svs(v: Seq<String>) -> Seq<Seq<char>> {
    v.map_values(|s: String| s@)
}

/// A file entry of a version reply, as read.
pub open spec fn file_matches(f: CatalogFile, j: JsonV) -> bool {
    &&& f.url@ == str_or(str_of(get(j, "url"@)), Seq::empty())
    &&& f.filename@ == str_or(str_of(get(j, "filename"@)), "mod.jar"@)
    &&& f.primary == flag(j, "primary"@)
    &&& oview(f.sha1) == str_of(pointer(j, "/hashes/sha1"@))
    &&& oview(f.sha512) == str_of(pointer(j, "/hashes/sha512"@))
    &&& f.size == u64_or_zero(j, "size"@)
}

/// A dependency entry of a version reply, as read (`required` when it
/// gives no type).
pub open spec fn dependency_matches(d: CatalogDependency, j: JsonV) -> bool {
    &&& oview(d.project_id) == str_of(get(j, "project_id"@))
    &&& oview(d.version_id) == str_of(get(j, "version_id"@))
    &&& d.dependency_type@ == str_or(str_of(get(j, "dependency_type"@)), "required"@)
}

/// The entries of the list member `key` of `v`, none when it is not a list.
pub open spec fn items_of(v: JsonV, key: Seq<char>) -> Seq<JsonV> {
    match crate::json::array_of(get(v, key)) {
        Some(a) => a,
        None => Seq::empty(),
    }
}

/// A version reply, read field by field: missing text is empty (the
/// channel defaults to `release`), lists skip non-strings.
pub open spec fn version_matches(r: CatalogVersion, v: JsonV) -> bool {
    &&& r.id@ == str_or(str_of(get(v, "id"@)), Seq::empty())
    &&& r.project_id@ == str_or(str_of(get(v, "project_id"@)), Seq::empty())
    &&& r.name@ == str_or(str_of(get(v, "name"@)), Seq::empty())
    &&& r.version_number@ == str_or(str_of(get(v, "version_number"@)), Seq::empty())
    &&& r.channel@ == str_or(str_of(get(v, "version_type"@)), "release"@)
    &&& svs(r.loaders@) == string_array_of(v, "loaders"@)
    &&& svs(r.game_versions@) == string_array_of(v, "game_versions"@)
    &&& r.featured == flag(v, "featured"@)
    &&& r.files.len() == items_of(v, "files"@).len()
    &&& (forall|i: int| 0 <= i < r.files.len() ==> file_matches(#[trigger] r.files@[i], items_of(v, "files"@)[i]))
    &&& r.dependencies.len() == items_of(v, "dependencies"@).len()
    &&& (forall|i: int|
        0 <= i < r.dependencies.len() ==> dependency_matches(#[trigger] r.dependencies@[i], items_of(v, "dependencies"@)[i]))
    &&& oview(r.date_published) == str_of(get(v, "date_published"@))
}

fn ptr_str(v: &Json, path: &str) -> (r: Option<String>)
    ensures
        oview(r) == str_of(pointer(v@, path@)),
{
    match v.pointer(path) {
        Some(x) => match x.as_str() {
            Some(s) => Some(lit(s)),
            None => None,
        },
        None => None,
    }
}

fn str_or_empty(v: &Json, key: &str) -> (r: String)
    ensures
        r@ == str_or(str_of(get(v@, key@)), Seq::empty()),
{
    match str_field(v, key) {
        Some(s) => s,
        None => String::new(),
    }
}

fn list_items<'a>(v: &'a Json, key: &str) -> (r: Option<&'a Vec<Json>>)
    ensures
        match r {
            Some(a) => json_views(a@) == items_of(v@, key@),
            None => items_of(v@, key@) == Seq::<JsonV>::empty(),
        },
{
    match v.get(key) {
        Some(x) => x.as_array(),
        None => None,
    }
}

/// Reads a version reply (see [`version_matches`]).
pub fn version_from_json(v: &Json) -> (r: CatalogVersion)
    ensures
        version_matches(r, v@),
{
    let mut files: Vec<CatalogFile> = Vec::new();
    match list_items(v, "files") {
        Some(items) => {
            let ghost vs = json_views(items@);
            let mut i: usize = 0;
            while i < items.len()
                invariant
                    i <= items.len(),
                    vs == json_views(items@),
                    vs == items_of(v@, "files"@),
                    files.len() == i,
                    forall|k: int| 0 <= k < i ==> file_matches(#[trigger] files@[k], vs[k]),
                decreases items.len() - i,
            {
                let f = &items[i];
                files.push(
                    CatalogFile {
                        url: str_or_empty(f, "url"),
                        filename: str_field_or(f, "filename", "mod.jar"),
                        primary: bool_field(f, "primary"),
                        sha1: ptr_str(f, "/hashes/sha1"),
                        sha512: ptr_str(f, "/hashes/sha512"),
                        size: u64_field(f, "size"),
                    },
                );
                i += 1;
            }
        },
        None => {},
    }
    let mut dependencies: Vec<CatalogDependency> = Vec::new();
    match list_items(v, "dependencies") {
        Some(items) => {
            let ghost vs = json_views(items@);
            let mut i: usize = 0;
            while i < items.len()
                invariant
                    i <= items.len(),
                    vs == json_views(items@),
                    vs == items_of(v@, "dependencies"@),
                    dependencies.len() == i,
                    forall|k: int| 0 <= k < i ==> dependency_matches(#[trigger] dependencies@[k], vs[k]),
                decreases items.len() - i,
            {
                let d = &items[i];
                dependencies.push(
                    CatalogDependency {
                        project_id: str_field(d, "project_id"),
                        version_id: str_field(d, "version_id"),
                        dependency_type: str_field_or(d, "dependency_type", "required"),
                    },
                );
                i += 1;
            }
        },
        None => {},
    }
    CatalogVersion {
        id: str_or_empty(v, "id"),
        project_id: str_or_empty(v, "project_id"),
        name: str_or_empty(v, "name"),
        version_number: str_or_empty(v, "version_number"),
        channel: str_field_or(v, "version_type", "release"),
        loaders: string_array(v, "loaders"),
        game_versions: string_array(v, "game_versions"),
        featured: bool_field(v, "featured"),
        files,
        dependencies,
        date_published: str_field(v, "date_published"),
    }
}

/// The loader names Modrinth lists among categories, in alphabetical order.
pub open spec fn loader_names() -> Seq<Seq<char>> {
    seq![
        "bukkit"@, "bungeecord"@, "fabric"@, "forge"@, "liteloader"@, "neoforge"@, "paper"@,
        "purpur"@, "quilt"@, "rift"@, "spigot"@, "sponge"@, "velocity"@, "waterfall"@,
    ]
}

fn loader_name_list() -> (r: Vec<&'static str>)
    ensures
        r@.map_values(|s: &str| s@) == loader_names(),
{
    let r = vec![
        "bukkit", "bungeecord", "fabric", "forge", "liteloader", "neoforge", "paper", "purpur",
        "quilt", "rift", "spigot", "sponge", "velocity", "waterfall",
    ];
    assert(r@.map_values(|s: &str| s@) =~= loader_names());
    r
}

/// The categories of a search hit that are not loader names.
pub open spec fn non_loaders(cats: Seq<Seq<char>>) -> Seq<Seq<char>>
    decreases cats.len(),
{
    if cats.len() == 0 {
        Seq::empty()
    } else {
        non_loaders(cats.drop_last()) + if loader_names().contains(cats.last()) {
            Seq::empty()
        } else {
            seq![cats.last()]
        }
    }
}

/// The loader names found among a hit's categories and display
/// categories, each once, alphabetically.
pub open spec fn hit_loaders(present: Seq<Seq<char>>) -> Seq<Seq<char>> {
    loader_names().filter(|n: Seq<char>| present.contains(n))
}

fn contains_string(v: &Vec<String>, x: &str) -> (b: bool)
    ensures
        b == svs(v@).contains(x@),
{
    let mut i: usize = 0;
    while i < v.len()
        invariant
            i <= v.len(),
            forall|j: int| 0 <= j < i ==> v@[j]@ != x@,
        decreases v.len() - i,
    {
        if str_eq(v[i].as_str(), x) {
            assert(svs(v@)[i as int] == x@);
            return true;
        }
        i += 1;
    }
    assert(!svs(v@).contains(x@)) by {
        if svs(v@).contains(x@) {
            let j = choose|j: int| 0 <= j < svs(v@).len() && svs(v@)[j] == x@;
            assert(v@[j]@ == x@);
        }
    }
    false
}

fn contains_name(v: &Vec<&str>, x: &str) -> (b: bool)
    ensures
        b == v@.map_values(|s: &str| s@).contains(x@),
{
    let ghost vs = v@.map_values(|s: &str| s@);
    let mut i: usize = 0;
    while i < v.len()
        invariant
            i <= v.len(),
            vs == v@.map_values(|s: &str| s@),
            forall|j: int| 0 <= j < i ==> v@[j]@ != x@,
        decreases v.len() - i,
    {
        if str_eq(v[i], x) {
            assert(vs[i as int] == x@);
            return true;
        }
        i += 1;
    }
    assert(!vs.contains(x@)) by {
        if vs.contains(x@) {
            let j = choose|j: int| 0 <= j < vs.len() && vs[j] == x@;
            assert(v@[j]@ == x@);
        }
    }
    false
}

/// A search hit, read field by field.
pub open spec fn hit_matches(h: ProjectHit, v: JsonV) -> bool {
    let cats = string_array_of(v, "categories"@);
    let display = string_array_of(v, "display_categories"@);
    &&& h.id@ == str_or(str_of(match get(v, "project_id"@) {
        Some(x) => Some(x),
        None => get(v, "id"@),
    }), Seq::empty())
    &&& h.slug@ == str_or(str_of(get(v, "slug"@)), Seq::empty())
    &&& h.title@ == str_or(str_of(get(v, "title"@)), "Untitled"@)
    &&& h.description@ == str_or(str_of(get(v, "description"@)), Seq::empty())
    &&& h.source@ == "modrinth"@
    &&& svs(h.loaders@) == hit_loaders(cats + display)
    &&& svs(h.game_versions@) == string_array_of(v, "versions"@)
    &&& oview(h.icon_url) == str_of(get(v, "icon_url"@))
    &&& h.downloads == u64_or_zero(v, "downloads"@)
    &&& h.project_type@ == str_or(str_of(get(v, "project_type"@)), "mod"@)
    &&& svs(h.categories@) == non_loaders(cats)
}

/// Reads a search hit (see [`hit_matches`]).
pub fn hit_from_json(v: &Json) -> (r: ProjectHit)
    ensures
        hit_matches(r, v@),
{
    let cats = string_array(v, "categories");
    let display = string_array(v, "display_categories");
    let names = loader_name_list();
    let ghost present = svs(cats@) + svs(display@);
    let ghost keep = |n: Seq<char>| present.contains(n);
    let mut loaders: Vec<String> = Vec::new();
    let mut i: usize = 0;
    while i < names.len()
        invariant
            i <= names.len(),
            names@.map_values(|s: &str| s@) == loader_names(),
            present == svs(cats@) + svs(display@),
            keep == (|n: Seq<char>| present.contains(n)),
            svs(loaders@) == loader_names().take(i as int).filter(keep),
        decreases names.len() - i,
    {
        proof {
            reveal_with_fuel(Seq::filter, 1);
            assert(loader_names().take(i + 1).drop_last() == loader_names().take(i as int));
        }
        let n = names[i];
        assert(loader_names()[i as int] == n@);
        let here = contains_string(&cats, n) || contains_string(&display, n);
        assert(here == present.contains(n@)) by {
            if present.contains(n@) {
                let j = choose|j: int| 0 <= j < present.len() && present[j] == n@;
                if j < svs(cats@).len() {
                    assert(svs(cats@)[j] == n@);
                } else {
                    assert(svs(display@)[j - svs(cats@).len()] == n@);
                }
            }
            if svs(cats@).contains(n@) {
                let j = choose|j: int| 0 <= j < svs(cats@).len() && svs(cats@)[j] == n@;
                assert(present[j] == n@);
            }
            if svs(display@).contains(n@) {
                let j = choose|j: int| 0 <= j < svs(display@).len() && svs(display@)[j] == n@;
                assert(present[j + svs(cats@).len()] == n@);
            }
        }
        let ghost before = svs(loaders@);
        if here {
            loaders.push(lit(n));
            assert(svs(loaders@) =~= before.push(n@));
        }
        i += 1;
    }
    assert(loader_names().take(names.len() as int) =~= loader_names());
    let mut categories: Vec<String> = Vec::new();
    let mut k: usize = 0;
    assert(svs(cats@).take(0) =~= Seq::<Seq<char>>::empty());
    while k < cats.len()
        invariant
            k <= cats.len(),
            names@.map_values(|s: &str| s@) == loader_names(),
            svs(categories@) == non_loaders(svs(cats@).take(k as int)),
        decreases cats.len() - k,
    {
        assert(svs(cats@).take(k + 1).drop_last() =~= svs(cats@).take(k as int));
        assert(svs(cats@).take(k + 1).last() == cats@[k as int]@);
        let ghost before = svs(categories@);
        if !contains_name(&names, cats[k].as_str()) {
            categories.push(cats[k].clone());
            assert(svs(categories@) =~= before.push(cats@[k as int]@));
        }
        k += 1;
    }
    assert(svs(cats@).take(cats.len() as int) =~= svs(cats@));
    let id_field = match v.get("project_id") {
        Some(x) => Some(x),
        None => v.get("id"),
    };
    let id = match id_field {
        Some(x) => match x.as_str() {
            Some(s) => lit(s),
            None => String::new(),
        },
        None => String::new(),
    };
    ProjectHit {
        id,
        slug: str_or_empty(v, "slug"),
        title: str_field_or(v, "title", "Untitled"),
        description: str_or_empty(v, "description"),
        source: lit("modrinth"),
        loaders,
        game_versions: string_array(v, "versions"),
        icon_url: str_field(v, "icon_url"),
        downloads: u64_field(v, "downloads"),
        project_type: str_field_or(v, "project_type", "mod"),
        categories,
    }
}

/// The entries of a list that name the string member `key`.
pub open spec fn with_str(items: Seq<JsonV>, key: Seq<char>) -> Seq<JsonV>
    decreases items.len(),
{
    if items.len() == 0 {
        Seq::empty()
    } else {
        with_str(items.drop_last(), key) + if str_of(get(items.last(), key)) is Some {
            seq![items.last()]
        } else {
            Seq::empty()
        }
    }
}

/// The entries of a list that name both string members `k1` and `k2`.
pub open spec fn with_strs(items: Seq<JsonV>, k1: Seq<char>, k2: Seq<char>) -> Seq<JsonV>
    decreases items.len(),
{
    if items.len() == 0 {
        Seq::empty()
    } else {
        with_strs(items.drop_last(), k1, k2) + if str_of(get(items.last(), k1)) is Some && str_of(
            get(items.last(), k2),
        ) is Some {
            seq![items.last()]
        } else {
            Seq::empty()
        }
    }
}

pub open spec fn image_matches(g: GalleryImage, j: JsonV) -> bool {
    &&& Some(g.url@) == str_of(get(j, "url"@))
    &&& oview(g.title) == str_of(get(j, "title"@))
    &&& oview(g.description) == str_of(get(j, "description"@))
    &&& g.featured == flag(j, "featured"@)
}

pub open spec fn donation_matches(d: DonationLink, j: JsonV) -> bool {
    &&& Some(d.id@) == str_of(get(j, "id"@))
    &&& d.platform@ == str_or(str_of(get(j, "platform"@)), "Donate"@)
    &&& Some(d.url@) == str_of(get(j, "url"@))
}

/// A project reply, read field by field (see the `project` method).
pub open spec fn project_matches(p: ProjectDetail, v: JsonV, members: Seq<ProjectMember>) -> bool {
    let id = str_of(get(v, "id"@))->Some_0;
    let slug = str_or(str_of(get(v, "slug"@)), id);
    let project_type = str_or(str_of(get(v, "project_type"@)), "mod"@);
    let gallery = with_str(items_of(v, "gallery"@), "url"@);
    let donations = with_strs(items_of(v, "donation_urls"@), "id"@, "url"@);
    &&& p.id@ == id
    &&& p.slug@ == slug
    &&& p.title@ == str_or(str_of(get(v, "title"@)), "Untitled"@)
    &&& p.description@ == str_or(str_of(get(v, "description"@)), Seq::empty())
    &&& oview(p.body) == str_of(get(v, "body"@))
    &&& p.source@ == "modrinth"@
    &&& oview(p.icon_url) == str_of(get(v, "icon_url"@))
    &&& svs(p.loaders@) == string_array_of(v, "loaders"@)
    &&& svs(p.game_versions@) == string_array_of(v, "game_versions"@)
    &&& oview(p.license) == str_of(pointer(v, "/license/id"@))
    &&& p.project_url@ == "https://modrinth.com/"@ + project_type + seq!['/'] + slug
    &&& p.project_type@ == project_type
    &&& svs(p.categories@) == string_array_of(v, "categories"@)
    &&& p.gallery.len() == gallery.len()
    &&& (forall|i: int| 0 <= i < gallery.len() ==> image_matches(#[trigger] p.gallery@[i], gallery[i]))
    &&& p.members@ == members
    &&& p.downloads == u64_or_zero(v, "downloads"@)
    &&& p.followers == u64_or_zero(v, "followers"@)
    &&& oview(p.published) == str_of(get(v, "published"@))
    &&& oview(p.updated) == str_of(get(v, "updated"@))
    &&& oview(p.source_url) == str_of(get(v, "source_url"@))
    &&& oview(p.issues_url) == str_of(get(v, "issues_url"@))
    &&& oview(p.wiki_url) == str_of(get(v, "wiki_url"@))
    &&& oview(p.discord_url) == str_of(get(v, "discord_url"@))
    &&& p.donation_urls.len() == donations.len()
    &&& (forall|i: int| 0 <= i < donations.len() ==> donation_matches(#[trigger] p.donation_urls@[i], donations[i]))
}

fn gallery_of(v: &Json) -> (r: Vec<GalleryImage>)
    ensures
        r.len() == with_str(items_of(v@, "gallery"@), "url"@).len(),
        forall|i: int|
            0 <= i < r.len() ==> image_matches(#[trigger] r@[i], with_str(items_of(v@, "gallery"@), "url"@)[i]),
{
    let mut r: Vec<GalleryImage> = Vec::new();
    let items = match list_items(v, "gallery") {
        Some(a) => a,
        None => {
            return r;
        },
    };
    let ghost vs = json_views(items@);
    let ghost kept: Seq<JsonV> = Seq::empty();
    let mut i: usize = 0;
    assert(vs.take(0) =~= Seq::<JsonV>::empty());
    while i < items.len()
        invariant
            i <= items.len(),
            vs == json_views(items@),
            vs == items_of(v@, "gallery"@),
            kept == with_str(vs.take(i as int), "url"@),
            r.len() == kept.len(),
            forall|k: int| 0 <= k < r.len() ==> image_matches(#[trigger] r@[k], kept[k]),
        decreases items.len() - i,
    {
        let img = &items[i];
        assert(vs.take(i + 1).drop_last() =~= vs.take(i as int));
        assert(vs.take(i + 1).last() == img@);
        match str_field(img, "url") {
            Some(url) => {
                r.push(
                    GalleryImage {
                        url,
                        title: str_field(img, "title"),
                        description: str_field(img, "description"),
                        featured: bool_field(img, "featured"),
                    },
                );
                proof {
                    kept = kept.push(img@);
                }
            },
            None => {},
        }
        i += 1;
    }
    assert(vs.take(items.len() as int) =~= vs);
    r
}

fn donations_of(v: &Json) -> (r: Vec<DonationLink>)
    ensures
        r.len() == with_strs(items_of(v@, "donation_urls"@), "id"@, "url"@).len(),
        forall|i: int|
            0 <= i < r.len() ==> donation_matches(
                #[trigger] r@[i],
                with_strs(items_of(v@, "donation_urls"@), "id"@, "url"@)[i],
            ),
{
    let mut r: Vec<DonationLink> = Vec::new();
    let items = match list_items(v, "donation_urls") {
        Some(a) => a,
        None => {
            return r;
        },
    };
    let ghost vs = json_views(items@);
    let ghost kept: Seq<JsonV> = Seq::empty();
    let mut i: usize = 0;
    assert(vs.take(0) =~= Seq::<JsonV>::empty());
    while i < items.len()
        invariant
            i <= items.len(),
            vs == json_views(items@),
            vs == items_of(v@, "donation_urls"@),
            kept == with_strs(vs.take(i as int), "id"@, "url"@),
            r.len() == kept.len(),
            forall|k: int| 0 <= k < r.len() ==> donation_matches(#[trigger] r@[k], kept[k]),
        decreases items.len() - i,
    {
        let d = &items[i];
        assert(vs.take(i + 1).drop_last() =~= vs.take(i as int));
        assert(vs.take(i + 1).last() == d@);
        match (str_field(d, "id"), str_field(d, "url")) {
            (Some(id), Some(url)) => {
                r.push(DonationLink { id, platform: str_field_or(d, "platform", "Donate"), url });
                proof {
                    kept = kept.push(d@);
                }
            },
            _ => {},
        }
        i += 1;
    }
    assert(vs.take(items.len() as int) =~= vs);
    r
}

/// A team member entry, read: it must name a `user` with a string `id`.
pub open spec fn member_ok(m: JsonV) -> bool {
    match get(m, "user"@) {
        Some(u) => str_of(get(u, "id"@)) is Some,
        None => false,
    }
}

pub open spec fn members_kept(items: Seq<JsonV>) -> Seq<JsonV>
    decreases items.len(),
{
    if items.len() == 0 {
        Seq::empty()
    } else {
        members_kept(items.drop_last()) + if member_ok(items.last()) {
            seq![items.last()]
        } else {
            Seq::empty()
        }
    }
}

pub open spec fn member_matches(p: ProjectMember, m: JsonV) -> bool {
    let u = get(m, "user"@)->Some_0;
    &&& Some(p.user_id@) == str_of(get(u, "id"@))
    &&& p.name@ == str_or(str_of(match get(u, "username"@) {
        Some(x) => Some(x),
        None => get(u, "name"@),
    }), "Unknown"@)
    &&& p.role@ == str_or(str_of(get(m, "role"@)), "Member"@)
    &&& oview(p.avatar_url) == str_of(get(u, "avatar_url"@))
}

/// A category entry is kept when it names a string `name` that is not a
/// loader-like tag.
pub open spec fn category_ok(c: JsonV) -> bool {
    match str_of(get(c, "name"@)) {
        Some(n) => !seq![
            "fabric"@, "forge"@, "neoforge"@, "quilt"@, "liteloader"@, "rift"@, "datapack"@,
        ].contains(n),
        None => false,
    }
}

pub open spec fn categories_kept(items: Seq<JsonV>) -> Seq<JsonV>
    decreases items.len(),
{
    if items.len() == 0 {
        Seq::empty()
    } else {
        categories_kept(items.drop_last()) + if category_ok(items.last()) {
            seq![items.last()]
        } else {
            Seq::empty()
        }
    }
}

pub open spec fn category_matches(c: CatalogCategory, j: JsonV) -> bool {
    &&& Some(c.name@) == str_of(get(j, "name"@))
    &&& c.project_type@ == str_or(str_of(get(j, "project_type"@)), "mod"@)
    &&& oview(c.header) == str_of(get(j, "header"@))
}

/// The entries of a reply that is a list; none otherwise.
pub open spec fn reply_items(v: JsonV) -> Seq<JsonV> {
    match crate::json::as_array(v) {
        Some(a) => a,
        None => Seq::empty(),
    }
}

/// The versions of a versions reply that the release channel admits.
pub open spec fn channel_kept(items: Seq<JsonV>, channel: Option<Seq<char>>) -> Seq<JsonV>
    decreases items.len(),
{
    if items.len() == 0 {
        Seq::empty()
    } else {
        channel_kept(items.drop_last(), channel) + if match channel {
            Some(ch) => channel_admits(ch, str_or(str_of(get(items.last(), "version_type"@)), "release"@)),
            None => true,
        } {
            seq![items.last()]
        } else {
            Seq::empty()
        }
    }
}

pub open spec fn sopt(o: Option<&str>) -> Option<Seq<char>> {
    match o {
        Some(s) => Some(s@),
        None => None,
    }
}

impl ModrinthAdapter {
    /// A project page from the project reply and its team: the reply must
    /// name an `id` (see [`project_matches`]).
    pub fn project(&self, v: &Json, members: Vec<ProjectMember>) -> (r: AppResult<ProjectDetail>)
        ensures
            match str_of(get(v@, "id"@)) {
                None => r matches Err(e) && e.message@ == "Modrinth project missing id"@,
                Some(_) => r matches Ok(p) && project_matches(p, v@, members@),
            },
    {
        let id = match str_field(v, "id") {
            Some(i) => i,
            None => {
                return Err(AppError::lit("Modrinth project missing id"));
            },
        };
        let slug = match str_field(v, "slug") {
            Some(s) => s,
            None => id.clone(),
        };
        let project_type = str_field_or(v, "project_type", "mod");
        let mut url = chars_of("https://modrinth.com/");
        append_str(&mut url, project_type.as_str());
        url.push('/');
        append_str(&mut url, slug.as_str());
        assert(url@ =~= "https://modrinth.com/"@ + project_type@ + seq!['/'] + slug@);
        Ok(
            ProjectDetail {
                id,
                slug,
                title: str_field_or(v, "title", "Untitled"),
                description: str_or_empty(v, "description"),
                body: str_field(v, "body"),
                source: lit("modrinth"),
                icon_url: str_field(v, "icon_url"),
                loaders: string_array(v, "loaders"),
                game_versions: string_array(v, "game_versions"),
                license: ptr_str(v, "/license/id"),
                project_url: string_of(&url),
                project_type,
                categories: string_array(v, "categories"),
                gallery: gallery_of(v),
                members,
                downloads: u64_field(v, "downloads"),
                followers: u64_field(v, "followers"),
                published: str_field(v, "published"),
                updated: str_field(v, "updated"),
                source_url: str_field(v, "source_url"),
                issues_url: str_field(v, "issues_url"),
                wiki_url: str_field(v, "wiki_url"),
                discord_url: str_field(v, "discord_url"),
                donation_urls: donations_of(v),
            },
        )
    }

    /// The team of a project from the members reply: one member per entry
    /// that names a user with an id.
    pub fn project_members(&self, v: &Json) -> (r: Vec<ProjectMember>)
        ensures
            r.len() == members_kept(reply_items(v@)).len(),
            forall|i: int|
                0 <= i < r.len() ==> member_matches(#[trigger] r@[i], members_kept(reply_items(v@))[i]),
    {
        let mut r: Vec<ProjectMember> = Vec::new();
        let items = match v.as_array() {
            Some(a) => a,
            None => {
                return r;
            },
        };
        let ghost vs = json_views(items@);
        let ghost kept: Seq<JsonV> = Seq::empty();
        let mut i: usize = 0;
        assert(vs.take(0) =~= Seq::<JsonV>::empty());
        while i < items.len()
            invariant
                i <= items.len(),
                vs == json_views(items@),
                vs == reply_items(v@),
                kept == members_kept(vs.take(i as int)),
                r.len() == kept.len(),
                forall|k: int| 0 <= k < r.len() ==> member_matches(#[trigger] r@[k], kept[k]),
            decreases items.len() - i,
        {
            let m = &items[i];
            assert(vs.take(i + 1).drop_last() =~= vs.take(i as int));
            assert(vs.take(i + 1).last() == m@);
            match m.get("user") {
                Some(user) => match str_field(user, "id") {
                    Some(user_id) => {
                        let name_field = match user.get("username") {
                            Some(x) => Some(x),
                            None => user.get("name"),
                        };
                        let name = match name_field {
                            Some(x) => match x.as_str() {
                                Some(n) => lit(n),
                                None => lit("Unknown"),
                            },
                            None => lit("Unknown"),
                        };
                        r.push(
                            ProjectMember {
                                user_id,
                                name,
                                role: str_field_or(m, "role", "Member"),
                                avatar_url: str_field(user, "avatar_url"),
                            },
                        );
                        proof {
                            kept = kept.push(m@);
                        }
                    },
                    None => {},
                },
                None => {},
            }
            i += 1;
        }
        assert(vs.take(items.len() as int) =~= vs);
        r
    }

    /// The category tags of the tag reply, loader-like tags left out.
    pub fn categories(&self, v: &Json) -> (r: Vec<CatalogCategory>)
        ensures
            r.len() == categories_kept(reply_items(v@)).len(),
            forall|i: int|
                0 <= i < r.len() ==> category_matches(#[trigger] r@[i], categories_kept(reply_items(v@))[i]),
    {
        let mut r: Vec<CatalogCategory> = Vec::new();
        let items = match v.as_array() {
            Some(a) => a,
            None => {
                return r;
            },
        };
        let skip = vec!["fabric", "forge", "neoforge", "quilt", "liteloader", "rift", "datapack"];
        let ghost sk = seq!["fabric"@, "forge"@, "neoforge"@, "quilt"@, "liteloader"@, "rift"@, "datapack"@];
        assert(skip@.map_values(|s: &str| s@) =~= sk);
        let ghost vs = json_views(items@);
        let ghost kept: Seq<JsonV> = Seq::empty();
        let mut i: usize = 0;
        assert(vs.take(0) =~= Seq::<JsonV>::empty());
        while i < items.len()
            invariant
                i <= items.len(),
                vs == json_views(items@),
                vs == reply_items(v@),
                skip@.map_values(|s: &str| s@) == sk,
                sk == seq!["fabric"@, "forge"@, "neoforge"@, "quilt"@, "liteloader"@, "rift"@, "datapack"@],
                kept == categories_kept(vs.take(i as int)),
                r.len() == kept.len(),
                forall|k: int| 0 <= k < r.len() ==> category_matches(#[trigger] r@[k], kept[k]),
            decreases items.len() - i,
        {
            let item = &items[i];
            assert(vs.take(i + 1).drop_last() =~= vs.take(i as int));
            assert(vs.take(i + 1).last() == item@);
            match str_field(item, "name") {
                Some(name) => {
                    if !contains_name(&skip, name.as_str()) {
                        r.push(
                            CatalogCategory {
                                name,
                                project_type: str_field_or(item, "project_type", "mod"),
                                header: str_field(item, "header"),
                            },
                        );
                        proof {
                            kept = kept.push(item@);
                        }
                    }
                },
                None => {},
            }
            i += 1;
        }
        assert(vs.take(items.len() as int) =~= vs);
        r
    }

    /// The versions of the versions reply (one per entry), keeping those the
    /// release channel admits when one is given.
    pub fn versions(&self, v: &Json, channel: Option<&str>) -> (r: Vec<CatalogVersion>)
        ensures
            r.len() == channel_kept(reply_items(v@), sopt(channel)).len(),
            forall|i: int|
                0 <= i < r.len() ==> version_matches(#[trigger] r@[i], channel_kept(reply_items(v@), sopt(channel))[i]),
    {
        let mut r: Vec<CatalogVersion> = Vec::new();
        let items = match v.as_array() {
            Some(a) => a,
            None => {
                return r;
            },
        };
        let ghost vs = json_views(items@);
        let ghost kept: Seq<JsonV> = Seq::empty();
        let mut i: usize = 0;
        assert(vs.take(0) =~= Seq::<JsonV>::empty());
        while i < items.len()
            invariant
                i <= items.len(),
                vs == json_views(items@),
                vs == reply_items(v@),
                kept == channel_kept(vs.take(i as int), sopt(channel)),
                r.len() == kept.len(),
                forall|k: int| 0 <= k < r.len() ==> version_matches(#[trigger] r@[k], kept[k]),
            decreases items.len() - i,
        {
            let item = &items[i];
            assert(vs.take(i + 1).drop_last() =~= vs.take(i as int));
            assert(vs.take(i + 1).last() == item@);
            let ver = version_from_json(item);
            let keep = match channel {
                Some(ch) => channel_allows(ch, ver.channel.as_str()),
                None => true,
            };
            if keep {
                r.push(ver);
                proof {
                    kept = kept.push(item@);
                }
            }
            i += 1;
        }
        assert(vs.take(items.len() as int) =~= vs);
        r
    }

    /// One version from a version reply.
    pub fn version(&self, v: &Json) -> (r: CatalogVersion)
        ensures
            version_matches(r, v@),
    {
        version_from_json(v)
    }

    /// A page of search hits from the search reply: one hit per entry of
    /// `hits`, the offset asked for, and `total_hits` (0 when absent) cut
    /// to 32 bits; a source other than Modrinth (or `all`) is refused.
    pub fn search(&self, filters: &SearchFilters, v: &Json) -> (r: AppResult<Page<ProjectHit>>)
        ensures
            !source_ok(*filters) ==> (r matches Err(e) && e.message@
                == "That catalog source is not enabled. CurseForge stays hidden until a licensed API key exists."@),
            source_ok(*filters) ==> (r matches Ok(p) && p.offset == page_offset(*filters) && p.total
                == (u64_or_zero(v@, "total_hits"@) % 0x1_0000_0000) as u32 && p.hits.len()
                == items_of(v@, "hits"@).len() && forall|i: int|
                0 <= i < p.hits.len() ==> hit_matches(#[trigger] p.hits@[i], items_of(v@, "hits"@)[i])),
    {
        match &filters.source {
            Some(s) => {
                if !str_eq(s.as_str(), "modrinth") && !str_eq(s.as_str(), "all") {
                    return Err(
                        AppError::lit(
                            "That catalog source is not enabled. CurseForge stays hidden until a licensed API key exists.",
                        ),
                    );
                }
            },
            None => {},
        }
        let offset: u32 = match filters.offset {
            Some(o) => o,
            None => 0,
        };
        let mut hits: Vec<ProjectHit> = Vec::new();
        match list_items(v, "hits") {
            Some(items) => {
                let ghost vs = json_views(items@);
                let mut i: usize = 0;
                while i < items.len()
                    invariant
                        i <= items.len(),
                        vs == json_views(items@),
                        vs == items_of(v@, "hits"@),
                        hits.len() == i,
                        forall|k: int| 0 <= k < i ==> hit_matches(#[trigger] hits@[k], vs[k]),
                    decreases items.len() - i,
                {
                    hits.push(hit_from_json(&items[i]));
                    i += 1;
                }
            },
            None => {},
        }
        let total64 = u64_field(v, "total_hits");
        let total = (total64 % 0x1_0000_0000) as u32;
        Ok(Page { hits, offset, total })
    }
}

// ---------------------------------------------------------------------------
// Request addresses
// ---------------------------------------------------------------------------

/// Calls `serde_json::to_string` on a list of strings, whose text is
/// [`json_list_of`] (its compact formatter: no spaces, escapes as in
/// [`json_char`]). Writing strings into memory cannot fail, so the call
/// always succeeds.
#[verifier::external_body]
fn json_list(items: &Vec<String>) -> (r: Result<String, serde_json::Error>)
    ensures
        r is Ok,
        r matches Ok(s) ==> s@ == json_list_of(svs(items@)),
{
    serde_json::to_string(items)
}

/// `{api}/project/{id}` with the id percent-encoded.
pub open spec fn project_url_of(id: Seq<char>) -> Seq<char> {
    "https://api.modrinth.com/v2"@ + "/project/"@ + percent_encoded(vstd::utf8::encode_utf8(id))
}

pub fn project_url(id_or_slug: &str) -> (r: String)
    ensures
        r@ == project_url_of(id_or_slug@),
{
    let mut u = chars_of("https://api.modrinth.com/v2");
    append_str(&mut u, "/project/");
    append_str(&mut u, url_encode(id_or_slug).as_str());
    string_of(&u)
}

/// The address of a project's team.
pub fn members_url(id_or_slug: &str) -> (r: String)
    ensures
        r@ == project_url_of(id_or_slug@) + "/members"@,
{
    let mut u = chars_of(project_url(id_or_slug).as_str());
    append_str(&mut u, "/members");
    string_of(&u)
}

/// The address of one version.
pub fn version_url(version_id: &str) -> (r: String)
    ensures
        r@ == "https://api.modrinth.com/v2"@ + "/version/"@ + percent_encoded(
            vstd::utf8::encode_utf8(version_id@),
        ),
{
    let mut u = chars_of("https://api.modrinth.com/v2");
    append_str(&mut u, "/version/");
    append_str(&mut u, url_encode(version_id).as_str());
    string_of(&u)
}

/// The address of the category tags.
pub fn categories_url() -> (r: String)
    ensures
        r@ == "https://api.modrinth.com/v2"@ + "/tag/category"@,
{
    let mut u = chars_of("https://api.modrinth.com/v2");
    append_str(&mut u, "/tag/category");
    string_of(&u)
}

/// The query of a versions request: the loaders and game versions, each as
/// a percent-encoded JSON list, when given.
pub open spec fn versions_query(loaders: Seq<Seq<char>>, games: Seq<Seq<char>>) -> Seq<Seq<char>> {
    (if loaders.len() > 0 {
        seq!["loaders="@ + percent_encoded(vstd::utf8::encode_utf8(json_list_of(loaders)))]
    } else {
        Seq::empty()
    }) + if games.len() > 0 {
        seq!["game_versions="@ + percent_encoded(vstd::utf8::encode_utf8(json_list_of(games)))]
    } else {
        Seq::empty()
    }
}

/// The address of a project's versions for some loaders and game versions.
pub open spec fn versions_url_of(id: Seq<char>, loaders: Seq<Seq<char>>, games: Seq<Seq<char>>) -> Seq<char> {
    let base = project_url_of(id) + "/version"@;
    let qs = versions_query(loaders, games);
    if qs.len() > 0 {
        base + seq!['?'] + crate::text::join(qs, seq!['&'])
    } else {
        base
    }
}

pub fn versions_url(id_or_slug: &str, loaders: &Vec<String>, game_versions: &Vec<String>) -> (r: AppResult<String>)
    ensures
        r is Ok,
        r matches Ok(u) ==> u@ == versions_url_of(id_or_slug@, svs(loaders@), svs(game_versions@)),
{
    let mut u = chars_of(project_url(id_or_slug).as_str());
    append_str(&mut u, "/version");
    let ghost base = u@;
    let mut qs: Vec<Vec<char>> = Vec::new();
    if loaders.len() > 0 {
        let j = match json_list(loaders) {
            Ok(j) => j,
            Err(_) => {
                return Err(AppError::lit("Could not encode version filters"));
            },
        };
        let mut q = chars_of("loaders=");
        append_str(&mut q, url_encode(j.as_str()).as_str());
        qs.push(q);
    }
    if game_versions.len() > 0 {
        let j = match json_list(game_versions) {
            Ok(j) => j,
            Err(_) => {
                return Err(AppError::lit("Could not encode version filters"));
            },
        };
        let mut q = chars_of("game_versions=");
        append_str(&mut q, url_encode(j.as_str()).as_str());
        qs.push(q);
    }
    assert(views(qs@) =~= versions_query(svs(loaders@), svs(game_versions@)));
    if qs.len() > 0 {
        u.push('?');
        let amp = vec!['&'];
        assert(amp@ =~= seq!['&']);
        append(&mut u, &crate::text::join_with(&qs, &amp));
    }
    Ok(string_of(&u))
}

// ===========================================================================
// The response cache
// ===========================================================================

/// The key under which the validator and file of a catalog URL are kept.
pub fn cache_meta_key(url: &str) -> (r: String)
    ensures
        r@ == "modrinth:"@ + url@,
{
    cat("modrinth:", url)
}

/// The stored cache entry of a URL, when its file is known: its validator
/// (empty when none was stored) and file.
pub fn cache_entry(etag: Option<String>, path: Option<String>) -> (r: Option<(String, String)>)
    ensures
        match path {
            Some(p) => r matches Some((e, q)) && q == p && e@ == match etag {
                Some(t) => t@,
                None => Seq::empty(),
            },
            None => r is None,
        },
{
    match path {
        Some(p) => Some(
            (
                match etag {
                    Some(t) => t,
                    None => String::new(),
                },
                p,
            ),
        ),
        None => None,
    }
}

/// The `If-None-Match` validator a request sends: the cached one, unless empty.
pub fn if_none_match(cached: &Option<(String, String)>) -> (r: Option<String>)
    ensures
        oview(r) == match cached {
            Some((e, _)) => if e@.len() > 0 {
                Some(e@)
            } else {
                None
            },
            None => None,
        },
{
    match cached {
        Some((e, _)) => if chars_of(e.as_str()).len() > 0 {
            Some(e.clone())
        } else {
            None
        },
        None => None,
    }
}

/// The cache file of a catalog URL.
pub fn cache_file(cache_dir: &str, url: &str) -> (r: String)
    ensures
        r@ == crate::paths::join(crate::paths::join(cache_dir@, "modrinth"@), hex_of(sha256_of(vstd::utf8::encode_utf8(url@))) + ".json"@),
{
    let dir = crate::paths::path_join_str(&chars_of(cache_dir), "modrinth");
    let name = cache_name(url);
    string_of(&crate::paths::path_join_str(&dir, name.as_str()))
}

/// What to do with a catalog reply of HTTP status `status` (written
/// `status_text`): a `304 Not Modified` with a cached file reads that file
/// (`Some`); another failure is refused; a success is stored (`None`).
pub fn cache_outcome(status: u16, status_text: &str, cached_path: Option<String>, url: &str) -> (r: AppResult<Option<String>>)
    ensures
        (status == 304 && cached_path is Some) ==> r == Ok::<Option<String>, AppError>(cached_path),
        !(status == 304 && cached_path is Some) && !(200 <= status <= 299) ==> (r matches Err(e)
            && e.message@ == "Modrinth request failed ("@ + status_text@ + "): "@ + url@),
        !(status == 304 && cached_path is Some) && (200 <= status <= 299) ==> r == Ok::<
            Option<String>,
            AppError,
        >(None),
{
    if status == 304 && cached_path.is_some() {
        return Ok(cached_path);
    }
    if !(200 <= status && status <= 299) {
        let mut m = chars_of("Modrinth request failed (");
        append_str(&mut m, status_text);
        append_str(&mut m, "): ");
        append_str(&mut m, url);
        return Err(AppError::msg(string_of(&m)));
    }
    Ok(None)
}

} // verus!
