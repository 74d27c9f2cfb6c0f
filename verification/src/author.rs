//! The author dashboard: drafts, Modrinth sign-in settings, publish
//! checklists and upload image types.
use vstd::prelude::*;
use crate::auth::{flag_on, flag_setting, local_redirect, redirect_to, setting, trimmed_setting};
use crate::error::{AppError, AppResult};
use crate::paths::{extension_lower, lower_ext};
use crate::text::{
    chars_of, eq_str, lit, oview, parse_port, parse_u16, replace, replace_char, string_of, trim,
    trimmed, utf8_len, utf8_len_capped, append, append_str, str_eq, copy_opt, decimal, decimal_of,
};
use crate::json::{
    Json, JsonV, get, object_of, str_field, str_field_or, str_items, str_of, str_or, string_list,
    json_views,
};
use crate::catalog::{reply_items, svs};

verus! {

/// A local project draft.
pub struct AuthorProject {
    pub id: String,
    pub title: String,
    pub slug: Option<String>,
    pub summary: String,
    pub description: String,
    pub project_type: String,
    pub status: String,
    pub modrinth_id: Option<String>,
    pub local_path: Option<String>,
    pub created_at: String,
    pub updated_at: String,
}

/// What the user gives to create a draft.
pub struct NewAuthorProject {
    pub title: String,
    pub slug: Option<String>,
    pub summary: Option<String>,
    pub description: Option<String>,
    pub project_type: Option<String>,
}

/// A partial update of a draft.
pub struct AuthorProjectPatch {
    pub title: Option<String>,
    pub slug: Option<String>,
    pub summary: Option<String>,
    pub description: Option<String>,
    pub project_type: Option<String>,
    pub status: Option<String>,
    pub modrinth_id: Option<String>,
    pub local_path: Option<String>,
}

/// The Modrinth connection as shown to the user.
pub struct AuthorStatus {
    pub oauth_configured: bool,
    pub secret_configured: bool,
    pub connected: bool,
    pub expired: bool,
    pub dry_run: bool,
    pub username: Option<String>,
    pub user_id: Option<String>,
    pub expires_at: Option<String>,
    pub redirect_uri: String,
    pub scopes: String,
    pub note: String,
}

/// A request to create a Modrinth project from a draft.
pub struct CreateRemoteProjectRequest {
    pub draft_id: String,
    pub categories: Option<Vec<String>>,
    pub client_side: Option<String>,
    pub server_side: Option<String>,
    pub license_id: Option<String>,
}

/// One of the user's Modrinth projects.
pub struct RemoteModrinthProject {
    pub id: String,
    pub slug: String,
    pub title: String,
    pub description: String,
    pub project_type: String,
    pub icon_url: Option<String>,
}

/// A request to publish a version.
pub struct PublishVersionRequest {
    pub project_id: String,
    pub draft_id: Option<String>,
    pub name: String,
    pub version_number: String,
    pub changelog: Option<String>,
    pub game_versions: Vec<String>,
    pub loaders: Vec<String>,
    pub version_type: Option<String>,
    pub featured: Option<bool>,
    pub file_path: String,
}

/// A published version.
pub struct PublishVersionResult {
    pub version_id: String,
    pub project_id: String,
    pub version_number: String,
    pub project_url: String,
}

/// A request to upload an icon or a gallery image.
pub struct UploadAuthorMediaRequest {
    pub project_id: String,
    pub file_path: String,
    pub featured: Option<bool>,
    pub title: Option<String>,
    pub description: Option<String>,
}

/// The outcome of an upload.
pub struct UploadAuthorMediaResult {
    pub project_id: String,
    pub kind: String,
    pub note: String,
}

/// One gallery image of a Modrinth project.
pub struct RemoteGalleryImage {
    pub url: String,
    pub title: Option<String>,
    pub description: Option<String>,
    pub featured: bool,
    pub ordering: Option<i64>,
}

/// A change to one gallery image.
pub struct GalleryImageEditRequest {
    pub project_id: String,
    pub url: String,
    pub featured: Option<bool>,
}

/// One item of the publish checklist.
pub struct PublishChecklistItem {
    pub id: String,
    pub label: String,
    pub done: bool,
}

/// Modrinth sign-in settings.
pub struct ModrinthOauthConfig {
    pub client_id: Option<String>,
    pub client_secret: Option<String>,
    pub redirect_port: u16,
    pub scopes: String,
    pub dry_run: bool,
}

/// The scopes asked for when none are configured.
pub open spec fn default_scopes() -> Seq<char> {
    "USER_READ+PROJECT_READ+PROJECT_WRITE+PROJECT_CREATE+VERSION_CREATE+VERSION_READ+VERSION_WRITE"@
}

impl ModrinthOauthConfig {
    /// The settings read from `MODRINTH_CLIENT_ID`, `MODRINTH_CLIENT_SECRET`,
    /// `MODRINTH_OAUTH_REDIRECT_PORT`, `MODRINTH_OAUTH_SCOPES` and
    /// `MODRINTH_AUTH_DRY_RUN`: blank values are none, an unreadable port is
    /// 17891, blank scopes are the default ones.
    pub fn from_values(
        client_id: Option<String>,
        client_secret: Option<String>,
        redirect_port: Option<String>,
        scopes: Option<String>,
        dry_run: Option<String>,
    ) -> (c: ModrinthOauthConfig)
        ensures
            oview(c.client_id) == setting(client_id),
            oview(c.client_secret) == setting(client_secret),
            c.redirect_port == match redirect_port {
                Some(p) => match parse_u16(p@) {
                    Some(n) => n,
                    None => 17891,
                },
                None => 17891,
            },
            c.scopes@ == match setting(scopes) {
                Some(s) => s,
                None => default_scopes(),
            },
            c.dry_run == flag_on(dry_run),
    {
        let port: u16 = match &redirect_port {
            Some(p) => match parse_port(p.as_str()) {
                Some(n) => n,
                None => 17891,
            },
            None => 17891,
        };
        ModrinthOauthConfig {
            client_id: trimmed_setting(&client_id),
            client_secret: trimmed_setting(&client_secret),
            redirect_port: port,
            scopes: match trimmed_setting(&scopes) {
                Some(s) => s,
                None => lit(
                    "USER_READ+PROJECT_READ+PROJECT_WRITE+PROJECT_CREATE+VERSION_CREATE+VERSION_READ+VERSION_WRITE",
                ),
            },
            dry_run: flag_setting(&dry_run),
        }
    }

    /// `http://127.0.0.1:{port}/modrinth/callback`.
    pub fn redirect_uri(&self) -> (r: String)
        ensures
            r@ == local_redirect(self.redirect_port, "/modrinth/callback"@),
    {
        redirect_to(self.redirect_port, "/modrinth/callback")
    }

    /// OAuth can run: client id and secret are set and it is not a dry run.
    pub fn oauth_ready(&self) -> (b: bool)
        ensures
            b == (self.client_id is Some && self.client_secret is Some && !self.dry_run),
    {
        self.client_id.is_some() && self.client_secret.is_some() && !self.dry_run
    }
}

/// A path shown with `/` separators.
pub fn path_display(path: &str) -> (r: String)
    ensures
        r@ == replace(path@, seq!['\\'], seq!['/']),
{
    string_of(&replace_char(&chars_of(path), '\\', '/'))
}

/// The upload type of an image path, by extension: png, jpg (for `.jpg` and
/// `.jpeg`), webp, gif, bmp or svg; any other extension is refused.
pub open spec fn image_kind(path: Seq<char>) -> Option<Seq<char>> {
    let e = match lower_ext(path) {
        Some(e) => e,
        None => Seq::empty(),
    };
    if e == "png"@ {
        Some("png"@)
    } else if e == "jpg"@ || e == "jpeg"@ {
        Some("jpg"@)
    } else if e == "webp"@ {
        Some("webp"@)
    } else if e == "gif"@ {
        Some("gif"@)
    } else if e == "bmp"@ {
        Some("bmp"@)
    } else if e == "svg"@ {
        Some("svg"@)
    } else {
        None
    }
}

pub fn image_ext(path: &str) -> (r: AppResult<String>)
    ensures
        match r {
            Ok(k) => image_kind(path@) == Some(k@),
            Err(e) => image_kind(path@) is None && e.message@
                == "Image must be png, jpg, jpeg, webp, gif, bmp, or svg"@,
        },
{
    let e = match extension_lower(path) {
        Some(e) => e,
        None => Vec::new(),
    };
    if eq_str(&e, "png") {
        Ok(lit("png"))
    } else if eq_str(&e, "jpg") || eq_str(&e, "jpeg") {
        Ok(lit("jpg"))
    } else if eq_str(&e, "webp") {
        Ok(lit("webp"))
    } else if eq_str(&e, "gif") {
        Ok(lit("gif"))
    } else if eq_str(&e, "bmp") {
        Ok(lit("bmp"))
    } else if eq_str(&e, "svg") {
        Ok(lit("svg"))
    } else {
        Err(AppError::lit("Image must be png, jpg, jpeg, webp, gif, bmp, or svg"))
    }
}

pub open spec fn item_is(i: PublishChecklistItem, id: Seq<char>, label: Seq<char>, done: bool) -> bool {
    i.id@ == id && i.label@ == label && i.done == done
}

fn item(id: &str, label: &str, done: bool) -> (r: PublishChecklistItem)
    ensures
        item_is(r, id@, label@, done),
{
    PublishChecklistItem { id: lit(id), label: lit(label), done }
}

pub open spec fn filled(o: Option<String>) -> bool {
    match o {
        Some(s) => s@.len() > 0,
        None => false,
    }
}

/// The publish checklist of a draft, given whether a Modrinth account is
/// connected: a title, a summary of at least 16 bytes, a description of at
/// least 40 bytes (all trimmed), a slug, a linked Modrinth project, and the
/// connection.
pub fn publish_checklist(project: &AuthorProject, connected: bool) -> (r: Vec<PublishChecklistItem>)
    ensures
        r@.len() == 6,
        item_is(r@[0], "title"@, "Project title set"@, trim(project.title@).len() > 0),
        item_is(
            r@[1],
            "summary"@,
            "Short summary (Modrinth description)"@,
            utf8_len(trim(project.summary@)) >= 16,
        ),
        item_is(
            r@[2],
            "body"@,
            "Long description drafted"@,
            utf8_len(trim(project.description@)) >= 40,
        ),
        item_is(r@[3], "slug"@, "URL slug chosen"@, filled(project.slug)),
        item_is(r@[4], "linked"@, "Linked to a Modrinth project"@, filled(project.modrinth_id)),
        item_is(r@[5], "oauth"@, "Modrinth account connected"@, connected),
{
    let title = trimmed(&chars_of(project.title.as_str()));
    let summary = trimmed(&chars_of(project.summary.as_str()));
    let description = trimmed(&chars_of(project.description.as_str()));
    let summary_ok = utf8_len_capped(&summary, 15).is_none();
    let description_ok = utf8_len_capped(&description, 39).is_none();
    let slug_ok = match &project.slug {
        Some(s) => chars_of(s.as_str()).len() > 0,
        None => false,
    };
    let linked = match &project.modrinth_id {
        Some(s) => chars_of(s.as_str()).len() > 0,
        None => false,
    };
    let mut r: Vec<PublishChecklistItem> = Vec::new();
    r.push(item("title", "Project title set", title.len() > 0));
    r.push(item("summary", "Short summary (Modrinth description)", summary_ok));
    r.push(item("body", "Long description drafted", description_ok));
    r.push(item("slug", "URL slug chosen", slug_ok));
    r.push(item("linked", "Linked to a Modrinth project", linked));
    r.push(item("oauth", "Modrinth account connected", connected));
    r
}

// ===========================================================================
// Modrinth requests
// ===========================================================================

/// The error a Modrinth reply status gives, if any: 401 means the session
/// expired (and the caller marks it so); any other status outside 200-299
/// reports the reply body.
pub open spec fn failure_of(status: u16, context: Seq<char>, body: Seq<char>) -> Option<Seq<char>> {
    if status == 401 {
        Some(context + ": Modrinth session expired (401). Reconnect from the Author page."@)
    } else if !(200 <= status <= 299) {
        Some(context + ": "@ + body)
    } else {
        None
    }
}

pub fn modrinth_failure(status: u16, context: &str, body: &str) -> (r: Option<AppError>)
    ensures
        match r {
            Some(e) => failure_of(status, context@, body@) == Some(e.message@),
            None => failure_of(status, context@, body@) is None,
        },
{
    if status == 401 {
        let mut m = chars_of(context);
        append_str(&mut m, ": Modrinth session expired (401). Reconnect from the Author page.");
        return Some(AppError::msg(string_of(&m)));
    }
    if !(200 <= status && status <= 299) {
        let mut m = chars_of(context);
        append_str(&mut m, ": ");
        append_str(&mut m, body);
        return Some(AppError::msg(string_of(&m)));
    }
    None
}

/// The error the user lookup of a token gives, if any.
pub fn user_lookup_failure(status: u16, body: &str) -> (r: Option<AppError>)
    ensures
        status == 401 ==> (r matches Some(e) && e.message@
            == "Modrinth rejected the token (401). Check the PAT or reconnect OAuth."@),
        status != 401 && !(200 <= status <= 299) ==> (r matches Some(e) && e.message@
            == "Could not load Modrinth user: "@ + body@),
        status != 401 && 200 <= status <= 299 ==> r is None,
{
    if status == 401 {
        return Some(AppError::lit("Modrinth rejected the token (401). Check the PAT or reconnect OAuth."));
    }
    if !(200 <= status && status <= 299) {
        let mut m = chars_of("Could not load Modrinth user: ");
        append_str(&mut m, body);
        return Some(AppError::msg(string_of(&m)));
    }
    None
}

/// An entry of the user's projects list is kept when it names an `id` and
/// a `slug`.
pub open spec fn remote_ok(p: JsonV) -> bool {
    str_of(get(p, "id"@)) is Some && str_of(get(p, "slug"@)) is Some
}

pub open spec fn remote_kept(items: Seq<JsonV>) -> Seq<JsonV>
    decreases items.len(),
{
    if items.len() == 0 {
        Seq::empty()
    } else {
        remote_kept(items.drop_last()) + if remote_ok(items.last()) {
            seq![items.last()]
        } else {
            Seq::empty()
        }
    }
}

pub open spec fn remote_matches(r: RemoteModrinthProject, p: JsonV) -> bool {
    &&& Some(r.id@) == str_of(get(p, "id"@))
    &&& Some(r.slug@) == str_of(get(p, "slug"@))
    &&& r.title@ == str_or(str_of(get(p, "title"@)), "Untitled"@)
    &&& r.description@ == str_or(str_of(get(p, "description"@)), Seq::empty())
    &&& r.project_type@ == str_or(str_of(get(p, "project_type"@)), "mod"@)
    &&& oview(r.icon_url) == str_of(get(p, "icon_url"@))
}

/// The user's projects from the projects reply.
pub fn remote_projects(v: &Json) -> (r: Vec<RemoteModrinthProject>)
    ensures
        r.len() == remote_kept(reply_items(v@)).len(),
        forall|i: int|
            0 <= i < r.len() ==> remote_matches(#[trigger] r@[i], remote_kept(reply_items(v@))[i]),
{
    let mut r: Vec<RemoteModrinthProject> = Vec::new();
    let items = match v.as_array() {
        Some(a) => a,
        None => {
            return r;
        },
    };
    let ghost vs = json_views(items@);
    let ghost kept: Seq<JsonV> = Seq::empty();
    let mut i: usize = 0;
    assert(vs.take(0) =~= Seq::<JsonV>::empty());
    while i < items.len()
        invariant
            i <= items.len(),
            vs == json_views(items@),
            vs == reply_items(v@),
            kept == remote_kept(vs.take(i as int)),
            r.len() == kept.len(),
            forall|k: int| 0 <= k < r.len() ==> remote_matches(#[trigger] r@[k], kept[k]),
        decreases items.len() - i,
    {
        let p = &items[i];
        assert(vs.take(i + 1).drop_last() =~= vs.take(i as int));
        assert(vs.take(i + 1).last() == p@);
        match (str_field(p, "id"), str_field(p, "slug")) {
            (Some(id), Some(slug)) => {
                let description = match str_field(p, "description") {
                    Some(d) => d,
                    None => String::new(),
                };
                r.push(
                    RemoteModrinthProject {
                        id,
                        slug,
                        title: str_field_or(p, "title", "Untitled"),
                        description,
                        project_type: str_field_or(p, "project_type", "mod"),
                        icon_url: str_field(p, "icon_url"),
                    },
                );
                proof {
                    kept = kept.push(p@);
                }
            },
            _ => {},
        }
        i += 1;
    }
    assert(vs.take(items.len() as int) =~= vs);
    r
}

/// The project a dry run lists in place of the user's.
pub fn dry_run_projects() -> (r: Vec<RemoteModrinthProject>)
    ensures
        r.len() == 1,
        r@[0].id@ == "dryrunproj"@,
        r@[0].slug@ == "aureum-dry-run-mod"@,
        r@[0].title@ == "Aureum Dry-Run Mod"@,
        r@[0].description@ == "Simulated Modrinth project for author UI testing."@,
        r@[0].project_type@ == "mod"@,
        r@[0].icon_url is None,
{
    let mut r: Vec<RemoteModrinthProject> = Vec::new();
    r.push(
        RemoteModrinthProject {
            id: lit("dryrunproj"),
            slug: lit("aureum-dry-run-mod"),
            title: lit("Aureum Dry-Run Mod"),
            description: lit("Simulated Modrinth project for author UI testing."),
            project_type: lit("mod"),
            icon_url: None,
        },
    );
    r
}

// ===========================================================================
// Creating a Modrinth project from a draft
// ===========================================================================

/// What a draft sends when it becomes a Modrinth project.
pub struct RemoteProjectPlan {
    pub slug: String,
    pub title: String,
    pub summary: String,
    pub body: String,
    pub categories: Vec<String>,
    pub client_side: String,
    pub server_side: String,
    pub license_id: String,
    pub project_type: String,
}

/// The default categories of a project type.
pub open spec fn default_category(project_type: Seq<char>) -> Seq<char> {
    if project_type == "resourcepack"@ {
        "16x"@
    } else if project_type == "shader"@ {
        "realistic"@
    } else {
        "utility"@
    }
}

/// The default client and server sides of a project type.
pub open spec fn default_sides(project_type: Seq<char>) -> (Seq<char>, Seq<char>) {
    if project_type == "resourcepack"@ || project_type == "shader"@ {
        ("required"@, "unsupported"@)
    } else if project_type == "datapack"@ {
        ("unsupported"@, "required"@)
    } else {
        ("required"@, "optional"@)
    }
}

fn opt_or(o: &Option<String>, d: &str) -> (r: String)
    ensures
        r@ == match o {
            Some(s) => s@,
            None => d@,
        },
{
    match o {
        Some(s) => s.clone(),
        None => lit(d),
    }
}

/// The draft is already linked to a Modrinth project.
pub open spec fn linked(draft: AuthorProject) -> bool {
    match draft.modrinth_id {
        Some(m) => m@.len() > 0,
        None => false,
    }
}

/// The draft's trimmed slug takes at least 3 bytes.
pub open spec fn slug_ok(draft: AuthorProject) -> bool {
    match draft.slug {
        Some(s) => utf8_len(trim(s@)) >= 3,
        None => false,
    }
}

/// Checks a draft before it is created on Modrinth and fills the request's
/// gaps: it must not be linked yet, its trimmed slug must take at least 3
/// bytes, its trimmed title must not be empty and its trimmed summary must
/// take at least 3 bytes. The body is the description, or the summary when
/// the description is blank; categories, sides and license default by
/// project type.
pub fn remote_project_plan(draft: &AuthorProject, req: &CreateRemoteProjectRequest) -> (r: AppResult<RemoteProjectPlan>)
    ensures
        (match draft.modrinth_id {
            Some(m) => m@.len() > 0,
            None => false,
        }) ==> (r matches Err(e) && e.message@
            == "Draft is already linked to a Modrinth project. Unlink first or publish a version."@),
        r matches Ok(p) ==> ({
            &&& draft.slug matches Some(s) && p.slug@ == trim(s@) && utf8_len(trim(s@)) >= 3
            &&& p.title@ == trim(draft.title@) && p.title@.len() > 0
            &&& p.summary@ == trim(draft.summary@) && utf8_len(trim(draft.summary@)) >= 3
            &&& p.body@ == if trim(draft.description@).len() == 0 {
                trim(draft.summary@)
            } else {
                draft.description@
            }
            &&& svs(p.categories@) == match req.categories {
                Some(c) => svs(c@),
                None => seq![default_category(draft.project_type@)],
            }
            &&& p.client_side@ == match req.client_side {
                Some(c) => c@,
                None => default_sides(draft.project_type@).0,
            }
            &&& p.server_side@ == match req.server_side {
                Some(c) => c@,
                None => default_sides(draft.project_type@).1,
            }
            &&& p.license_id@ == match req.license_id {
                Some(l) => l@,
                None => "LicenseRef-Unknown"@,
            }
            &&& p.project_type@ == draft.project_type@
        }),
        !linked(*draft) && !slug_ok(*draft) ==> (r matches Err(e) && e.message@
            == "Set a slug (3+ chars) before creating on Modrinth"@),
        !linked(*draft) && slug_ok(*draft) && trim(draft.title@).len() == 0 ==> (r matches Err(e)
            && e.message@ == "Title is required"@),
        !linked(*draft) && slug_ok(*draft) && trim(draft.title@).len() > 0 && utf8_len(
            trim(draft.summary@),
        ) < 3 ==> (r matches Err(e) && e.message@
            == "Short summary must be at least a few characters"@),
        !linked(*draft) && slug_ok(*draft) && trim(draft.title@).len() > 0 && utf8_len(
            trim(draft.summary@),
        ) >= 3 ==> r is Ok,
{
    match &draft.modrinth_id {
        Some(m) => {
            if chars_of(m.as_str()).len() > 0 {
                return Err(AppError::lit("Draft is already linked to a Modrinth project. Unlink first or publish a version."));
            }
        },
        None => {},
    }
    let slug = match &draft.slug {
        Some(s) => {
            let t = trimmed(&chars_of(s.as_str()));
            match utf8_len_capped(&t, 2) {
                Some(_) => None,
                None => Some(t),
            }
        },
        None => None,
    };
    let slug = match slug {
        Some(s) => string_of(&s),
        None => {
            return Err(AppError::lit("Set a slug (3+ chars) before creating on Modrinth"));
        },
    };
    let title = trimmed(&chars_of(draft.title.as_str()));
    if title.len() == 0 {
        return Err(AppError::lit("Title is required"));
    }
    let summary = trimmed(&chars_of(draft.summary.as_str()));
    if utf8_len_capped(&summary, 2).is_some() {
        return Err(AppError::lit("Short summary must be at least a few characters"));
    }
    let body = if trimmed(&chars_of(draft.description.as_str())).len() == 0 {
        string_of(&summary)
    } else {
        draft.description.clone()
    };
    let pt = draft.project_type.as_str();
    let categories = match &req.categories {
        Some(c) => {
            let mut v: Vec<String> = Vec::new();
            let mut i: usize = 0;
            while i < c.len()
                invariant
                    i <= c.len(),
                    v@ == c@.take(i as int),
                decreases c.len() - i,
            {
                v.push(c[i].clone());
                i += 1;
                assert(v@ =~= c@.take(i as int));
            }
            assert(c@.take(c.len() as int) =~= c@);
            v
        },
        None => {
            let cat = if str_eq(pt, "resourcepack") {
                "16x"
            } else if str_eq(pt, "shader") {
                "realistic"
            } else {
                "utility"
            };
            let mut v: Vec<String> = Vec::new();
            v.push(lit(cat));
            assert(svs(v@) =~= seq![default_category(draft.project_type@)]);
            v
        },
    };
    let (dc, ds) = if str_eq(pt, "resourcepack") || str_eq(pt, "shader") {
        ("required", "unsupported")
    } else if str_eq(pt, "datapack") {
        ("unsupported", "required")
    } else {
        ("required", "optional")
    };
    Ok(
        RemoteProjectPlan {
            slug,
            title: string_of(&title),
            summary: string_of(&summary),
            body,
            categories,
            client_side: opt_or(&req.client_side, dc),
            server_side: opt_or(&req.server_side, ds),
            license_id: opt_or(&req.license_id, "LicenseRef-Unknown"),
            project_type: draft.project_type.clone(),
        },
    )
}

/// The `data` document of a project creation: the plan's fields, and the
/// new project as a draft.
pub open spec fn remote_project_data_of(p: RemoteProjectPlan) -> JsonV {
    JsonV::Object(
        seq![
            ("slug"@, JsonV::Str(p.slug@)),
            ("title"@, JsonV::Str(p.title@)),
            ("description"@, JsonV::Str(p.summary@)),
            ("body"@, JsonV::Str(p.body@)),
            ("categories"@, JsonV::Array(str_items(svs(p.categories@)))),
            ("client_side"@, JsonV::Str(p.client_side@)),
            ("server_side"@, JsonV::Str(p.server_side@)),
            ("license_id"@, JsonV::Str(p.license_id@)),
            ("project_type"@, JsonV::Str(p.project_type@)),
            ("is_draft"@, JsonV::Bool(true)),
        ],
    )
}

pub fn remote_project_data(p: &RemoteProjectPlan) -> (r: Json)
    ensures
        r@ == remote_project_data_of(*p),
{
    let mut m: Vec<(String, Json)> = Vec::new();
    m.push((lit("slug"), Json::Str(p.slug.clone())));
    m.push((lit("title"), Json::Str(p.title.clone())));
    m.push((lit("description"), Json::Str(p.summary.clone())));
    m.push((lit("body"), Json::Str(p.body.clone())));
    m.push((lit("categories"), string_list(&p.categories)));
    m.push((lit("client_side"), Json::Str(p.client_side.clone())));
    m.push((lit("server_side"), Json::Str(p.server_side.clone())));
    m.push((lit("license_id"), Json::Str(p.license_id.clone())));
    m.push((lit("project_type"), Json::Str(p.project_type.clone())));
    m.push((lit("is_draft"), Json::Bool(true)));
    let r = object_of(m);
    assert(r@->Object_0 =~= remote_project_data_of(*p)->Object_0);
    r
}

/// The id and slug of a created project: the reply must name an `id`; its
/// slug defaults to the one sent.
pub fn created_project(created: &Json, slug: &str) -> (r: AppResult<(String, String)>)
    ensures
        match str_of(get(created@, "id"@)) {
            None => r matches Err(e) && e.message@ == "Modrinth create project returned no id"@,
            Some(id) => r matches Ok((i, s)) && i@ == id && s@ == str_or(str_of(get(created@, "slug"@)), slug@),
        },
{
    let id = match str_field(created, "id") {
        Some(i) => i,
        None => {
            return Err(AppError::lit("Modrinth create project returned no id"));
        },
    };
    Ok((id, str_field_or(created, "slug", slug)))
}

/// The draft change that records its Modrinth project.
pub fn linked_patch(slug: String, modrinth_id: String) -> (r: AuthorProjectPatch)
    ensures
        r.title is None,
        r.slug == Some(slug),
        r.summary is None,
        r.description is None,
        r.project_type is None,
        oview(r.status) == Some("checklist"@),
        r.modrinth_id == Some(modrinth_id),
        r.local_path is None,
{
    AuthorProjectPatch {
        title: None,
        slug: Some(slug),
        summary: None,
        description: None,
        project_type: None,
        status: Some(lit("checklist")),
        modrinth_id: Some(modrinth_id),
        local_path: None,
    }
}

// ===========================================================================
// Publishing a version
// ===========================================================================

/// Files that can be published: `.jar`, `.zip`, `.mrpack`, `.litemod`.
pub open spec fn publishable_ext(ext: Seq<char>) -> bool {
    ext == "jar"@ || ext == "zip"@ || ext == "mrpack"@ || ext == "litemod"@
}

/// Checks the file of a version to publish and gives its name: its
/// lowercase extension must be publishable and it must have a file name.
pub fn check_publish_file(file_path: &str) -> (r: AppResult<String>)
    ensures
        !publishable_ext(match lower_ext(file_path@) {
            Some(e) => e,
            None => Seq::empty(),
        }) ==> (r matches Err(e) && e.message@ == "File must be .jar, .zip, .mrpack, or .litemod"@),
        r matches Ok(n) ==> publishable_ext(match lower_ext(file_path@) {
            Some(e) => e,
            None => Seq::empty(),
        }) && crate::paths::file_name(file_path@) == Some(n@),
        r is Err && publishable_ext(match lower_ext(file_path@) {
            Some(e) => e,
            None => Seq::empty(),
        }) ==> crate::paths::file_name(file_path@) is None,
{
    let ext = match extension_lower(file_path) {
        Some(e) => e,
        None => Vec::new(),
    };
    if !(eq_str(&ext, "jar") || eq_str(&ext, "zip") || eq_str(&ext, "mrpack") || eq_str(&ext, "litemod")) {
        return Err(AppError::lit("File must be .jar, .zip, .mrpack, or .litemod"));
    }
    match crate::paths::path_file_name(&chars_of(file_path)) {
        Some(n) => Ok(string_of(&n)),
        None => Err(AppError::lit("Invalid file name")),
    }
}

/// What a version publication sends, after checks.
pub struct PublishPlan {
    pub name: String,
    pub version_number: String,
    pub version_type: String,
    pub loaders: Vec<String>,
    pub game_versions: Vec<String>,
}

/// Checks a publication and fills its gaps: the file must not be empty and
/// at least one game version is required. The version number is trimmed;
/// the name is the trimmed name, or the version number when blank; the
/// type defaults to `release` and the loaders to `minecraft`.
pub fn publish_plan(req: &PublishVersionRequest, file_len: usize) -> (r: AppResult<PublishPlan>)
    ensures
        file_len == 0 ==> (r matches Err(e) && e.message@ == "Publish file is empty"@),
        file_len > 0 && req.game_versions.len() == 0 ==> (r matches Err(e) && e.message@
            == "At least one game version is required"@),
        file_len > 0 && req.game_versions.len() > 0 ==> (r matches Ok(p) && ({
            &&& p.version_number@ == trim(req.version_number@)
            &&& p.name@ == if trim(req.name@).len() == 0 {
                trim(req.version_number@)
            } else {
                trim(req.name@)
            }
            &&& p.version_type@ == match req.version_type {
                Some(t) => t@,
                None => "release"@,
            }
            &&& svs(p.loaders@) == if req.loaders.len() == 0 {
                seq!["minecraft"@]
            } else {
                svs(req.loaders@)
            }
            &&& p.game_versions@ == req.game_versions@
        })),
{
    if file_len == 0 {
        return Err(AppError::lit("Publish file is empty"));
    }
    let version_number = string_of(&trimmed(&chars_of(req.version_number.as_str())));
    let tn = trimmed(&chars_of(req.name.as_str()));
    let name = if tn.len() == 0 {
        version_number.clone()
    } else {
        string_of(&tn)
    };
    let version_type = opt_or(&req.version_type, "release");
    let mut loaders: Vec<String> = Vec::new();
    if req.loaders.len() == 0 {
        loaders.push(lit("minecraft"));
        assert(svs(loaders@) =~= seq!["minecraft"@]);
    } else {
        let mut i: usize = 0;
        while i < req.loaders.len()
            invariant
                i <= req.loaders.len(),
                loaders@ == req.loaders@.take(i as int),
            decreases req.loaders.len() - i,
        {
            loaders.push(req.loaders[i].clone());
            i += 1;
            assert(loaders@ =~= req.loaders@.take(i as int));
        }
        assert(req.loaders@.take(req.loaders.len() as int) =~= req.loaders@);
    }
    if req.game_versions.len() == 0 {
        return Err(AppError::lit("At least one game version is required"));
    }
    let mut games: Vec<String> = Vec::new();
    let mut k: usize = 0;
    while k < req.game_versions.len()
        invariant
            k <= req.game_versions.len(),
            games@ == req.game_versions@.take(k as int),
        decreases req.game_versions.len() - k,
    {
        games.push(req.game_versions[k].clone());
        k += 1;
        assert(games@ =~= req.game_versions@.take(k as int));
    }
    assert(req.game_versions@.take(req.game_versions.len() as int) =~= req.game_versions@);
    Ok(PublishPlan { name, version_number, version_type, loaders, game_versions: games })
}

/// The `data` document of a publication.
pub open spec fn publish_data_of(p: PublishPlan, req: PublishVersionRequest) -> JsonV {
    JsonV::Object(
        seq![
            ("name"@, JsonV::Str(p.name@)),
            ("version_number"@, JsonV::Str(p.version_number@)),
            ("changelog"@, JsonV::Str(match req.changelog {
                Some(c) => c@,
                None => Seq::empty(),
            })),
            ("dependencies"@, JsonV::Array(Seq::empty())),
            ("game_versions"@, JsonV::Array(str_items(svs(p.game_versions@)))),
            ("version_type"@, JsonV::Str(p.version_type@)),
            ("loaders"@, JsonV::Array(str_items(svs(p.loaders@)))),
            ("featured"@, JsonV::Bool(match req.featured {
                Some(f) => f,
                None => true,
            })),
            ("status"@, JsonV::Str("listed"@)),
            ("project_id"@, JsonV::Str(req.project_id@)),
            ("file_parts"@, JsonV::Array(seq![JsonV::Str("file"@)])),
            ("primary_file"@, JsonV::Str("file"@)),
        ],
    )
}

pub fn publish_data(p: &PublishPlan, req: &PublishVersionRequest) -> (r: Json)
    ensures
        r@ == publish_data_of(*p, *req),
{
    let changelog = match &req.changelog {
        Some(c) => c.clone(),
        None => String::new(),
    };
    let featured = match req.featured {
        Some(f) => f,
        None => true,
    };
    let deps: Vec<Json> = Vec::new();
    proof {
        crate::json::lemma_array_view(deps);
    }
    let mut parts: Vec<Json> = Vec::new();
    parts.push(Json::Str(lit("file")));
    proof {
        crate::json::lemma_array_view(parts);
    }
    let deps_j = Json::Array(deps);
    let parts_j = Json::Array(parts);
    assert(deps_j@ == JsonV::Array(Seq::empty())) by {
        assert(deps_j@->Array_0 =~= Seq::<JsonV>::empty());
    }
    assert(parts_j@ == JsonV::Array(seq![JsonV::Str("file"@)])) by {
        assert(parts_j@->Array_0 =~= seq![JsonV::Str("file"@)]);
    }
    let mut m: Vec<(String, Json)> = Vec::new();
    m.push((lit("name"), Json::Str(p.name.clone())));
    m.push((lit("version_number"), Json::Str(p.version_number.clone())));
    m.push((lit("changelog"), Json::Str(changelog)));
    m.push((lit("dependencies"), deps_j));
    m.push((lit("game_versions"), string_list(&p.game_versions)));
    m.push((lit("version_type"), Json::Str(p.version_type.clone())));
    m.push((lit("loaders"), string_list(&p.loaders)));
    m.push((lit("featured"), Json::Bool(featured)));
    m.push((lit("status"), Json::Str(lit("listed"))));
    m.push((lit("project_id"), Json::Str(req.project_id.clone())));
    m.push((lit("file_parts"), parts_j));
    m.push((lit("primary_file"), Json::Str(lit("file"))));
    let r = object_of(m);
    assert(r@->Object_0 =~= publish_data_of(*p, *req)->Object_0);
    r
}

/// The outcome of a publication from the created version: its id (empty
/// when absent), its project (else the requested one), and the project
/// page, `https://modrinth.com/{type}/{slug}`, where the slug is the
/// draft's when known, else the project id.
pub fn publish_result(
    created: &Json,
    req: &PublishVersionRequest,
    draft_slug: Option<String>,
    version_number: String,
) -> (r: PublishVersionResult)
    ensures
        r.version_id@ == str_or(str_of(get(created@, "id"@)), Seq::empty()),
        r.project_id@ == str_or(str_of(get(created@, "project_id"@)), req.project_id@),
        r.version_number == version_number,
        r.project_url@ == "https://modrinth.com/"@ + str_or(str_of(get(created@, "project_type"@)), "mod"@)
            + seq!['/'] + match draft_slug {
            Some(s) => s@,
            None => str_or(str_of(get(created@, "project_id"@)), req.project_id@),
        },
{
    let version_id = match str_field(created, "id") {
        Some(v) => v,
        None => String::new(),
    };
    let project_id = str_field_or(created, "project_id", req.project_id.as_str());
    let project_type = str_field_or(created, "project_type", "mod");
    let slug = match draft_slug {
        Some(s) => s,
        None => project_id.clone(),
    };
    let mut url = chars_of("https://modrinth.com/");
    append_str(&mut url, project_type.as_str());
    url.push('/');
    append_str(&mut url, slug.as_str());
    PublishVersionResult { version_id, project_id, version_number, project_url: string_of(&url) }
}

/// The outcome a dry run reports.
pub fn dry_run_publish(req: &PublishVersionRequest, version_number: String) -> (r: PublishVersionResult)
    ensures
        r.version_id@ == "dry-ver"@,
        r.project_id@ == req.project_id@,
        r.version_number == version_number,
        r.project_url@ == "https://modrinth.com/mod/"@ + req.project_id@,
{
    let mut url = chars_of("https://modrinth.com/mod/");
    append_str(&mut url, req.project_id.as_str());
    PublishVersionResult {
        version_id: lit("dry-ver"),
        project_id: req.project_id.clone(),
        version_number,
        project_url: string_of(&url),
    }
}

/// The draft change after a publication: published, linked to the project,
/// remembering the file.
pub fn published_patch(project_id: String, local_path: String) -> (r: AuthorProjectPatch)
    ensures
        r.title is None,
        r.slug is None,
        r.summary is None,
        r.description is None,
        r.project_type is None,
        oview(r.status) == Some("published"@),
        r.modrinth_id == Some(project_id),
        r.local_path == Some(local_path),
{
    AuthorProjectPatch {
        title: None,
        slug: None,
        summary: None,
        description: None,
        project_type: None,
        status: Some(lit("published")),
        modrinth_id: Some(project_id),
        local_path: Some(local_path),
    }
}

} // verus!
