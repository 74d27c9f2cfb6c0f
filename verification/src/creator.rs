//! The Modrinth creator session of the author dashboard (status, sign-in,
//! access token) and the project media it uploads and edits.
use vstd::prelude::*;
use crate::author::{
    AuthorStatus, ModrinthOauthConfig, RemoteGalleryImage, UploadAuthorMediaRequest,
    UploadAuthorMediaResult, default_scopes,
};
use crate::auth::{enc, local_redirect};
use crate::catalog::{modrinth_api, reply_items};
use crate::digest::url_encode;
use crate::error::{AppError, AppResult};
use crate::json::{Json, JsonV, as_array, as_bool, as_i64, get, json_views, str_field, str_of};
use crate::text::{append_str, chars_of, lit, oview, str_eq, string_of, trim, trimmed};

verus! {

broadcast use vstd::string::group_string_axioms;

// ===========================================================================
// Session
// ===========================================================================

/// A setting counts when not empty.
pub open spec fn present(o: Option<String>) -> Option<Seq<char>> {
    match o {
        Some(s) => if s@.len() > 0 {
            Some(s@)
        } else {
            None
        },
        None => None,
    }
}

fn keep_present(o: Option<String>) -> (r: Option<String>)
    ensures
        oview(r) == present(o),
{
    match o {
        Some(s) => if chars_of(s.as_str()).len() > 0 {
            Some(s)
        } else {
            None
        },
        None => None,
    }
}

/// The session is expired: marked so, or (for OAuth sessions) past its
/// expiry time. Token and dry-run sessions do not expire by time.
pub open spec fn session_expired(kind: Seq<char>, has_expiry: bool, expiry_passed: bool) -> bool {
    if kind == "expired"@ {
        true
    } else if kind == "pat"@ || kind == "dry-run"@ {
        false
    } else {
        has_expiry && expiry_passed
    }
}

/// The note the status shows.
pub open spec fn status_note(cfg: ModrinthOauthConfig, expired: bool, connected: bool, username: Option<Seq<char>>) -> Seq<char> {
    if cfg.dry_run {
        "MODRINTH_AUTH_DRY_RUN=1 — Connect simulates a creator session; no real Modrinth API calls."@
    } else if expired {
        "Modrinth session expired"@ + match username {
            Some(u) => " for "@ + u,
            None => Seq::empty(),
        } + ". Reconnect to continue publishing."@
    } else if cfg.client_id is Some && cfg.client_secret is Some && !cfg.dry_run {
        if connected {
            "Connected as "@ + match username {
                Some(u) => u,
                None => "Modrinth user"@,
            } + ". Tokens stay in the OS keychain."@
        } else {
            "Modrinth OAuth is configured. Connect opens your browser (authorization-code + client secret on token exchange)."@
        }
    } else if cfg.client_id is Some && cfg.client_secret is None {
        "MODRINTH_CLIENT_ID is set, but MODRINTH_CLIENT_SECRET is missing. Modrinth requires the secret for token exchange (kept in Rust / .env only). You can also paste a Personal Access Token."@
    } else {
        "Add MODRINTH_CLIENT_ID + MODRINTH_CLIENT_SECRET to .env (redirect http://127.0.0.1:17891/modrinth/callback), or connect with a Modrinth PAT. Drafts still work offline."@
    }
}

/// The creator status from the stored session: its kind (empty when
/// none), expiry text, whether that expiry has passed (when it reads as a
/// time), whether a token was kept at the start and is kept now, and the
/// user. The flag says to drop the kept token, which an expired session does.
pub fn author_status(
    cfg: &ModrinthOauthConfig,
    kind: Option<String>,
    expires_at: Option<String>,
    expiry_passed: bool,
    had_token: bool,
    has_token: bool,
    username: Option<String>,
    user_id: Option<String>,
) -> (r: (AuthorStatus, bool))
    ensures
        ({
            let k = match kind {
                Some(s) => s@,
                None => Seq::empty(),
            };
            let expired = session_expired(k, present(expires_at) is Some, expiry_passed);
            let s = r.0;
            &&& s.expired == expired
            &&& s.connected == (has_token && !expired)
            &&& s.oauth_configured == cfg.client_id is Some
            &&& s.secret_configured == cfg.client_secret is Some
            &&& s.dry_run == cfg.dry_run
            &&& oview(s.username) == present(username)
            &&& oview(s.user_id) == present(user_id)
            &&& oview(s.expires_at) == present(expires_at)
            &&& s.redirect_uri@ == local_redirect(cfg.redirect_port, "/modrinth/callback"@)
            &&& s.scopes == cfg.scopes
            &&& s.note@ == status_note(*cfg, expired, has_token && !expired, present(username))
            &&& r.1 == (expired && had_token)
        }),
{
    let k = match &kind {
        Some(s) => s.clone(),
        None => String::new(),
    };
    let expires = keep_present(expires_at);
    let expired = if str_eq(k.as_str(), "expired") {
        true
    } else if str_eq(k.as_str(), "pat") || str_eq(k.as_str(), "dry-run") {
        false
    } else {
        expires.is_some() && expiry_passed
    };
    let connected = has_token && !expired;
    let user = keep_present(username);
    let note: String = if cfg.dry_run {
        lit("MODRINTH_AUTH_DRY_RUN=1 — Connect simulates a creator session; no real Modrinth API calls.")
    } else if expired {
        let mut m = chars_of("Modrinth session expired");
        match &user {
            Some(u) => {
                append_str(&mut m, " for ");
                append_str(&mut m, u.as_str());
            },
            None => {},
        }
        append_str(&mut m, ". Reconnect to continue publishing.");
        string_of(&m)
    } else if cfg.oauth_ready() {
        if connected {
            let mut m = chars_of("Connected as ");
            match &user {
                Some(u) => append_str(&mut m, u.as_str()),
                None => append_str(&mut m, "Modrinth user"),
            }
            append_str(&mut m, ". Tokens stay in the OS keychain.");
            string_of(&m)
        } else {
            lit(
                "Modrinth OAuth is configured. Connect opens your browser (authorization-code + client secret on token exchange).",
            )
        }
    } else if cfg.client_id.is_some() && cfg.client_secret.is_none() {
        lit(
            "MODRINTH_CLIENT_ID is set, but MODRINTH_CLIENT_SECRET is missing. Modrinth requires the secret for token exchange (kept in Rust / .env only). You can also paste a Personal Access Token.",
        )
    } else {
        lit(
            "Add MODRINTH_CLIENT_ID + MODRINTH_CLIENT_SECRET to .env (redirect http://127.0.0.1:17891/modrinth/callback), or connect with a Modrinth PAT. Drafts still work offline.",
        )
    };
    let status = AuthorStatus {
        oauth_configured: cfg.client_id.is_some(),
        secret_configured: cfg.client_secret.is_some(),
        connected,
        expired,
        dry_run: cfg.dry_run,
        username: user,
        user_id: keep_present(user_id),
        expires_at: expires,
        redirect_uri: cfg.redirect_uri(),
        scopes: cfg.scopes.clone(),
        note,
    };
    (status, expired && had_token)
}

/// Modrinth calls are simulated: a dry-run configuration or session.
pub fn simulated(cfg: &ModrinthOauthConfig, kind: &Option<String>) -> (b: bool)
    ensures
        b == (cfg.dry_run || oview(*kind) == Some("dry-run"@)),
{
    cfg.dry_run || match kind {
        Some(k) => str_eq(k.as_str(), "dry-run"),
        None => false,
    }
}

/// The client id and secret an OAuth sign-in needs.
pub fn oauth_credentials(cfg: &ModrinthOauthConfig) -> (r: AppResult<(String, String)>)
    ensures
        match (cfg.client_id, cfg.client_secret) {
            (None, _) => r matches Err(e) && e.message@ == "Missing MODRINTH_CLIENT_ID"@,
            (Some(_), None) => r matches Err(e) && e.message@
                == "Missing MODRINTH_CLIENT_SECRET (required by Modrinth token exchange). Or use connect_with_pat."@,
            (Some(i), Some(s)) => r matches Ok((a, b)) && a@ == i@ && b@ == s@,
        },
{
    let id = match &cfg.client_id {
        Some(i) => i.clone(),
        None => {
            return Err(AppError::lit("Missing MODRINTH_CLIENT_ID"));
        },
    };
    match &cfg.client_secret {
        Some(s) => Ok((id, s.clone())),
        None => Err(
            AppError::lit(
                "Missing MODRINTH_CLIENT_SECRET (required by Modrinth token exchange). Or use connect_with_pat.",
            ),
        ),
    }
}

/// The Modrinth authorization page of a sign-in.
pub fn modrinth_authorize_url(client_id: &str, redirect: &str, scopes: &str, state: &str) -> (r: String)
    ensures
        r@ == "https://modrinth.com/auth/authorize?response_type=code&client_id="@ + enc(client_id@)
            + "&redirect_uri="@ + enc(redirect@) + "&scope="@ + enc(scopes@) + "&state="@ + enc(
            state@,
        ),
{
    let mut v = chars_of("https://modrinth.com/auth/authorize?response_type=code&client_id=");
    append_str(&mut v, url_encode(client_id).as_str());
    append_str(&mut v, "&redirect_uri=");
    append_str(&mut v, url_encode(redirect).as_str());
    append_str(&mut v, "&scope=");
    append_str(&mut v, url_encode(scopes).as_str());
    append_str(&mut v, "&state=");
    append_str(&mut v, url_encode(state).as_str());
    string_of(&v)
}

/// The form that trades a Modrinth authorization code for a token.
pub fn modrinth_code_form(code: &str, client_id: &str, redirect: &str) -> (r: Vec<(String, String)>)
    ensures
        crate::resolve::pairs_view(r@) == seq![
            ("code"@, code@),
            ("client_id"@, client_id@),
            ("redirect_uri"@, redirect@),
            ("grant_type"@, "authorization_code"@),
        ],
{
    let mut f: Vec<(String, String)> = Vec::new();
    f.push((lit("code"), lit(code)));
    f.push((lit("client_id"), lit(client_id)));
    f.push((lit("redirect_uri"), lit(redirect)));
    f.push((lit("grant_type"), lit("authorization_code")));
    assert(crate::resolve::pairs_view(f@) =~= seq![
        ("code"@, code@),
        ("client_id"@, client_id@),
        ("redirect_uri"@, redirect@),
        ("grant_type"@, "authorization_code"@),
    ]);
    f
}

/// How long a new OAuth token lasts, in seconds: as the reply says, else an hour.
pub fn token_lifetime(expires_in: Option<u64>) -> (r: u64)
    ensures
        r == match expires_in {
            Some(n) => n,
            None => 3600,
        },
{
    match expires_in {
        Some(n) => n,
        None => 3600,
    }
}

/// A personal access token, trimmed; an empty one is refused.
pub fn check_pat(pat: &str) -> (r: AppResult<String>)
    ensures
        trim(pat@).len() == 0 ==> (r matches Err(e) && e.message@ == "Personal access token is empty"@),
        trim(pat@).len() > 0 ==> (r matches Ok(t) && t@ == trim(pat@)),
{
    let t = trimmed(&chars_of(pat));
    if t.len() == 0 {
        return Err(AppError::lit("Personal access token is empty"));
    }
    Ok(string_of(&t))
}

/// The token a Modrinth call uses: refused when the session expired; the
/// simulated token for a dry-run session; else the kept token, if any.
pub fn access_token(expired: bool, kind: &Option<String>, kept: Option<String>) -> (r: AppResult<String>)
    ensures
        expired ==> (r matches Err(e) && e.message@ == "Modrinth session expired. Reconnect from the Author page."@),
        !expired && oview(*kind) == Some("dry-run"@) ==> (r matches Ok(t) && t@ == "dry-run-token"@),
        !expired && oview(*kind) != Some("dry-run"@) ==> match kept {
            Some(t) => r == Ok::<String, AppError>(t),
            None => r matches Err(e) && e.message@
                == "Not connected to Modrinth. Use Connect Modrinth or a personal access token."@,
        },
{
    if expired {
        return Err(AppError::lit("Modrinth session expired. Reconnect from the Author page."));
    }
    let dry = match kind {
        Some(k) => str_eq(k.as_str(), "dry-run"),
        None => false,
    };
    if dry {
        return Ok(lit("dry-run-token"));
    }
    match kept {
        Some(t) => Ok(t),
        None => Err(AppError::lit("Not connected to Modrinth. Use Connect Modrinth or a personal access token.")),
    }
}

/// The address listing a user's Modrinth projects; the user id must be known.
pub fn user_projects_url(user_id: Option<String>) -> (r: AppResult<String>)
    ensures
        match present(user_id) {
            Some(u) => r matches Ok(x) && x@ == modrinth_api() + "/user/"@ + enc(u) + "/projects"@,
            None => r matches Err(e) && e.message@ == "Missing Modrinth user id — reconnect"@,
        },
{
    let u = match keep_present(user_id) {
        Some(u) => u,
        None => {
            return Err(AppError::lit("Missing Modrinth user id — reconnect"));
        },
    };
    let mut v = chars_of("https://api.modrinth.com/v2");
    append_str(&mut v, "/user/");
    append_str(&mut v, url_encode(u.as_str()).as_str());
    append_str(&mut v, "/projects");
    Ok(string_of(&v))
}

// ===========================================================================
// Media
// ===========================================================================

/// A project id an upload or edit needs: trimmed, not blank.
pub fn media_project_id(raw: &str) -> (r: AppResult<String>)
    ensures
        trim(raw@).len() == 0 ==> (r matches Err(e) && e.message@ == "Modrinth project id is required"@),
        trim(raw@).len() > 0 ==> (r matches Ok(t) && t@ == trim(raw@)),
{
    let t = trimmed(&chars_of(raw));
    if t.len() == 0 {
        return Err(AppError::lit("Modrinth project id is required"));
    }
    Ok(string_of(&t))
}

/// An image of `size` bytes may be uploaded under a limit of `max` bytes
/// when it is not larger and not empty.
pub fn check_image_size(size: u64, max: u64) -> (r: AppResult<()>)
    ensures
        size > max ==> (r matches Err(e) && e.message@ == "Image too large (max "@
            + crate::text::decimal((max / 1024) as nat) + " KiB)"@),
        size <= max && size == 0 ==> (r matches Err(e) && e.message@ == "Image file is empty"@),
        size <= max && size > 0 ==> r is Ok,
{
    if size > max {
        let mut m = chars_of("Image too large (max ");
        crate::text::append(&mut m, &crate::text::decimal_of(max / 1024));
        append_str(&mut m, " KiB)");
        return Err(AppError::msg(string_of(&m)));
    }
    if size == 0 {
        return Err(AppError::lit("Image file is empty"));
    }
    Ok(())
}

/// The address an icon is uploaded to.
pub fn icon_url(project_id: &str, ext: &str) -> (r: String)
    ensures
        r@ == modrinth_api() + "/project/"@ + enc(project_id@) + "/icon?ext="@ + ext@,
{
    let mut v = chars_of("https://api.modrinth.com/v2");
    append_str(&mut v, "/project/");
    append_str(&mut v, url_encode(project_id).as_str());
    append_str(&mut v, "/icon?ext=");
    append_str(&mut v, ext);
    string_of(&v)
}

/// `true` or `false`, as a flag is written in a query.
pub open spec fn flag_text(b: bool) -> Seq<char> {
    if b {
        "true"@
    } else {
        "false"@
    }
}

/// An optional text parameter of a gallery upload, when not blank.
pub open spec fn text_param(name: Seq<char>, v: Option<String>) -> Seq<char> {
    match v {
        Some(s) => if trim(s@).len() > 0 {
            "&"@ + name + "="@ + enc(trim(s@))
        } else {
            Seq::empty()
        },
        None => Seq::empty(),
    }
}

fn push_text_param(url: &mut Vec<char>, name: &str, v: &Option<String>)
    ensures
        final(url)@ == old(url)@ + text_param(name@, *v),
{
    match v {
        Some(s) => {
            let t = string_of(&trimmed(&chars_of(s.as_str())));
            if chars_of(t.as_str()).len() > 0 {
                append_str(url, "&");
                append_str(url, name);
                append_str(url, "=");
                append_str(url, url_encode(t.as_str()).as_str());
            }
        },
        None => {},
    }
}

/// The address a gallery image is uploaded to: its type, whether it is
/// featured (not unless asked), and its title and description when given.
pub fn gallery_upload_url(project_id: &str, ext: &str, req: &UploadAuthorMediaRequest) -> (r: String)
    ensures
        r@ == modrinth_api() + "/project/"@ + enc(project_id@) + "/gallery?ext="@ + ext@ + "&featured="@
            + flag_text(match req.featured {
            Some(f) => f,
            None => false,
        }) + text_param("title"@, req.title) + text_param("description"@, req.description),
{
    let featured = match req.featured {
        Some(f) => f,
        None => false,
    };
    let mut v = chars_of("https://api.modrinth.com/v2");
    append_str(&mut v, "/project/");
    append_str(&mut v, url_encode(project_id).as_str());
    append_str(&mut v, "/gallery?ext=");
    append_str(&mut v, ext);
    append_str(&mut v, "&featured=");
    append_str(&mut v, if featured {
        "true"
    } else {
        "false"
    });
    push_text_param(&mut v, "title", &req.title);
    push_text_param(&mut v, "description", &req.description);
    string_of(&v)
}

/// The outcome an upload or edit reports.
pub fn media_result(project_id: String, kind: &str, note: &str) -> (r: UploadAuthorMediaResult)
    ensures
        r.project_id == project_id,
        r.kind@ == kind@,
        r.note@ == note@,
{
    UploadAuthorMediaResult { project_id, kind: lit(kind), note: lit(note) }
}

/// One image of the gallery of a project reply, when it has a URL.
pub open spec fn gallery_image_matches(g: RemoteGalleryImage, j: JsonV) -> bool {
    &&& Some(g.url@) == str_of(get(j, "url"@))
    &&& oview(g.title) == str_of(get(j, "title"@))
    &&& oview(g.description) == str_of(get(j, "description"@))
    &&& g.featured == match get(j, "featured"@) {
        Some(b) => match as_bool(b) {
            Some(x) => x,
            None => false,
        },
        None => false,
    }
    &&& g.ordering == match get(j, "ordering"@) {
        Some(n) => as_i64(n),
        None => None,
    }
}

/// The images of a project reply that have a URL, in order.
pub open spec fn gallery_kept(items: Seq<JsonV>) -> Seq<JsonV>
    decreases items.len(),
{
    if items.len() == 0 {
        Seq::empty()
    } else if str_of(get(items.last(), "url"@)) is Some {
        gallery_kept(items.drop_last()).push(items.last())
    } else {
        gallery_kept(items.drop_last())
    }
}

/// The gallery array of a project reply, empty when there is none.
pub open spec fn gallery_items(v: JsonV) -> Seq<JsonV> {
    match get(v, "gallery"@) {
        Some(g) => match as_array(g) {
            Some(a) => a,
            None => Seq::empty(),
        },
        None => Seq::empty(),
    }
}

/// The gallery of a project reply.
pub fn gallery_of_reply(v: &Json) -> (r: Vec<RemoteGalleryImage>)
    ensures
        r.len() == gallery_kept(gallery_items(v@)).len(),
        forall|i: int|
            0 <= i < r.len() ==> gallery_image_matches(#[trigger] r@[i], gallery_kept(gallery_items(v@))[i]),
{
    let mut r: Vec<RemoteGalleryImage> = Vec::new();
    let items = match v.get("gallery") {
        Some(g) => match g.as_array() {
            Some(a) => a,
            None => {
                return r;
            },
        },
        None => {
            return r;
        },
    };
    let ghost vs = json_views(items@);
    let ghost kept: Seq<JsonV> = Seq::empty();
    let mut i: usize = 0;
    assert(vs.take(0) =~= Seq::<JsonV>::empty());
    while i < items.len()
        invariant
            i <= items.len(),
            vs == json_views(items@),
            vs == gallery_items(v@),
            kept == gallery_kept(vs.take(i as int)),
            r.len() == kept.len(),
            forall|k: int| 0 <= k < r.len() ==> gallery_image_matches(#[trigger] r@[k], kept[k]),
        decreases items.len() - i,
    {
        let img = &items[i];
        assert(vs.take(i + 1).drop_last() =~= vs.take(i as int));
        assert(vs.take(i + 1).last() == img@);
        match str_field(img, "url") {
            Some(url) => {
                let featured = match img.get("featured") {
                    Some(b) => match b.as_bool() {
                        Some(x) => x,
                        None => false,
                    },
                    None => false,
                };
                let ordering = match img.get("ordering") {
                    Some(n) => n.as_i64(),
                    None => None,
                };
                r.push(
                    RemoteGalleryImage {
                        url,
                        title: str_field(img, "title"),
                        description: str_field(img, "description"),
                        featured,
                        ordering,
                    },
                );
                proof {
                    kept = kept.push(img@);
                }
            },
            None => {},
        }
        i += 1;
    }
    assert(vs.take(items.len() as int) =~= vs);
    r
}

/// The gallery a dry run lists.
pub fn dry_run_gallery() -> (r: Vec<RemoteGalleryImage>)
    ensures
        r.len() == 1,
        r@[0].url@ == "https://cdn.modrinth.com/data/dry/images/dry-gallery.png"@,
        oview(r@[0].title) == Some("Dry-run gallery"@),
        r@[0].description is None,
        r@[0].featured,
        r@[0].ordering == Some(0i64),
{
    let mut r: Vec<RemoteGalleryImage> = Vec::new();
    r.push(
        RemoteGalleryImage {
            url: lit("https://cdn.modrinth.com/data/dry/images/dry-gallery.png"),
            title: Some(lit("Dry-run gallery")),
            description: None,
            featured: true,
            ordering: Some(0),
        },
    );
    r
}

/// The address of a project page reply.
pub fn project_reply_url(project_id: &str) -> (r: String)
    ensures
        r@ == modrinth_api() + "/project/"@ + enc(project_id@),
{
    let mut v = chars_of("https://api.modrinth.com/v2");
    append_str(&mut v, "/project/");
    append_str(&mut v, url_encode(project_id).as_str());
    string_of(&v)
}

/// The project id and image URL a gallery edit names, both trimmed and required.
pub fn gallery_edit_target(project_id: &str, url: &str) -> (r: AppResult<(String, String)>)
    ensures
        (trim(project_id@).len() == 0 || trim(url@).len() == 0) ==> (r matches Err(e) && e.message@
            == "project id and gallery image url are required"@),
        (trim(project_id@).len() > 0 && trim(url@).len() > 0) ==> (r matches Ok((p, u)) && p@ == trim(
            project_id@,
        ) && u@ == trim(url@)),
{
    let p = trimmed(&chars_of(project_id));
    let u = trimmed(&chars_of(url));
    if p.len() == 0 || u.len() == 0 {
        return Err(AppError::lit("project id and gallery image url are required"));
    }
    Ok((string_of(&p), string_of(&u)))
}

/// The address that edits a gallery image: with the featured flag when it
/// is set, without it to delete the image.
pub fn gallery_edit_url(project_id: &str, url: &str, featured: Option<bool>) -> (r: String)
    ensures
        r@ == modrinth_api() + "/project/"@ + enc(project_id@) + "/gallery?url="@ + enc(url@) + match featured {
            Some(f) => "&featured="@ + flag_text(f),
            None => Seq::empty(),
        },
{
    let mut v = chars_of("https://api.modrinth.com/v2");
    append_str(&mut v, "/project/");
    append_str(&mut v, url_encode(project_id).as_str());
    append_str(&mut v, "/gallery?url=");
    append_str(&mut v, url_encode(url).as_str());
    match featured {
        Some(f) => {
            append_str(&mut v, "&featured=");
            append_str(&mut v, if f {
                "true"
            } else {
                "false"
            });
        },
        None => {},
    }
    string_of(&v)
}

/// The note of a featured-flag change (simulated or done).
pub fn featured_note(dry_run: bool, featured: bool) -> (r: String)
    ensures
        r@ == if dry_run {
            "Dry-run: set featured="@ + flag_text(featured) + "."@
        } else if featured {
            "Gallery image set as featured."@
        } else {
            "Gallery image unfeatured."@
        },
{
    if dry_run {
        let mut v = chars_of("Dry-run: set featured=");
        append_str(&mut v, if featured {
            "true"
        } else {
            "false"
        });
        append_str(&mut v, ".");
        string_of(&v)
    } else if featured {
        lit("Gallery image set as featured.")
    } else {
        lit("Gallery image unfeatured.")
    }
}

} // verus!
