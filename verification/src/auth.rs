//! Accounts: authentication settings, the status shown to the user,
//! offline profile names and Minecraft profile ids.
use vstd::prelude::*;
use crate::digest::{
    base64url_encode, base64url_of, percent_encoded, sha256_digest, sha256_of, url_decode,
    url_decoded, url_encode,
};
use crate::error::{AppError, AppResult};
use crate::json::{Json, JsonV, at, get, as_str, lemma_array_view, object_of, str_field, str_of};
use crate::launch::{split_words, sviews, words};
use crate::resolve::pairs_view;
use crate::text::{byte_prefix_or_all, cat, copy_opt, find_char, lemma_utf8_len_strict, index_of, lemma_index_of, split, split_on, views};
use vstd::utf8::encode_utf8;
use crate::text::{
    append, append_str, chars_of, char_is_ascii_alnum, decimal, decimal_of, eq_str, is_ascii_alnum,
    lit, lower, oview, parse_port, parse_u16, str_eq, string_of, to_lower, trim, trimmed, utf8_len,
    utf8_len_capped, slice,
};

verus! {

/// Microsoft sign-in settings.
pub struct AuthConfig {
    pub client_id: Option<String>,
    pub tenant: String,
    pub redirect_port: u16,
    pub dry_run: bool,
}

/// A trimmed setting, when it is not blank.
pub open spec fn setting(raw: Option<String>) -> Option<Seq<char>> {
    match raw {
        Some(s) => if trim(s@).len() > 0 {
            Some(trim(s@))
        } else {
            None
        },
        None => None,
    }
}

/// A flag setting is on when it is `1` or `true` (any letter case).
pub open spec fn flag_on(raw: Option<String>) -> bool {
    match raw {
        Some(s) => s@ == "1"@ || lower(s@) == "true"@,
        None => false,
    }
}

pub fn trimmed_setting(raw: &Option<String>) -> (r: Option<String>)
    ensures
        oview(r) == setting(*raw),
{
    match raw {
        Some(s) => {
            let t = trimmed(&chars_of(s.as_str()));
            if t.len() > 0 {
                Some(string_of(&t))
            } else {
                None
            }
        },
        None => None,
    }
}

pub fn flag_setting(raw: &Option<String>) -> (b: bool)
    ensures
        b == flag_on(*raw),
{
    match raw {
        Some(s) => {
            let l = to_lower(&chars_of(s.as_str()));
            assert(lower(seq!['t', 'r', 'u', 'e']) =~= seq!['t', 'r', 'u', 'e']);
            str_eq(s.as_str(), "1") || eq_str(&l, "true")
        },
        None => false,
    }
}

impl AuthConfig {
    /// The settings read from `AUREUM_MS_CLIENT_ID`, `AUREUM_MS_TENANT`,
    /// `AUREUM_OAUTH_REDIRECT_PORT` and `AUREUM_AUTH_DRY_RUN`: a blank client
    /// id is none, the tenant defaults to `consumers`, an unreadable port to
    /// 17890, and sign-in is a dry run when forced or without a client id.
    pub fn from_values(
        client_id: Option<String>,
        tenant: Option<String>,
        redirect_port: Option<String>,
        dry_run: Option<String>,
    ) -> (c: AuthConfig)
        ensures
            oview(c.client_id) == setting(client_id),
            c.tenant@ == match tenant {
                Some(t) => t@,
                None => "consumers"@,
            },
            c.redirect_port == match redirect_port {
                Some(p) => match parse_u16(p@) {
                    Some(n) => n,
                    None => 17890,
                },
                None => 17890,
            },
            c.dry_run == (flag_on(dry_run) || setting(client_id) is None),
    {
        let cid = trimmed_setting(&client_id);
        let forced = flag_setting(&dry_run);
        let port: u16 = match &redirect_port {
            Some(p) => match parse_port(p.as_str()) {
                Some(n) => n,
                None => 17890,
            },
            None => 17890,
        };
        AuthConfig {
            dry_run: forced || cid.is_none(),
            client_id: cid,
            tenant: match tenant {
                Some(t) => t,
                None => lit("consumers"),
            },
            redirect_port: port,
        }
    }
}

/// A stored account profile.
pub struct Profile {
    pub id: String,
    pub kind: String,
    pub display_name: String,
    pub uuid: Option<String>,
    pub skin_url: Option<String>,
    pub expires_at: Option<String>,
    pub has_secret: bool,
    pub created_at: String,
    pub updated_at: String,
}

/// What the UI is told about sign-in.
pub struct AuthStatus {
    pub dry_run: bool,
    pub has_client_id: bool,
    pub tenant: String,
    pub redirect_uri: String,
}

/// The session a launch uses.
pub struct SessionDescriptor {
    pub profile_id: String,
    pub uuid: String,
    pub name: String,
    pub skin_url: Option<String>,
    pub access_token: Option<String>,
    pub user_type: String,
    pub offline: bool,
}

/// The local redirect address of an OAuth callback on `port` at `path`.
pub open spec fn local_redirect(port: u16, path: Seq<char>) -> Seq<char> {
    "http://127.0.0.1:"@ + decimal(port as nat) + path
}

pub fn redirect_to(port: u16, path: &str) -> (r: String)
    ensures
        r@ == local_redirect(port, path@),
{
    let mut v = chars_of("http://127.0.0.1:");
    append(&mut v, &decimal_of(port as u64));
    append_str(&mut v, path);
    string_of(&v)
}

impl AuthStatus {
    pub fn from_config(cfg: &AuthConfig) -> (s: AuthStatus)
        ensures
            s.dry_run == cfg.dry_run,
            s.has_client_id == cfg.client_id is Some,
            s.tenant@ == cfg.tenant@,
            s.redirect_uri@ == local_redirect(cfg.redirect_port, "/auth/callback"@),
    {
        AuthStatus {
            dry_run: cfg.dry_run,
            has_client_id: cfg.client_id.is_some(),
            tenant: cfg.tenant.clone(),
            redirect_uri: redirect_to(cfg.redirect_port, "/auth/callback"),
        }
    }
}

/// An offline profile name: trimmed, 1 to 16 bytes, ASCII letters, digits
/// and `_` only.
pub open spec fn offline_name(raw: Seq<char>) -> Result<Seq<char>, Seq<char>> {
    let n = trim(raw);
    if n.len() == 0 || utf8_len(n) > 16 {
        Err("Offline profile name must be 1–16 characters"@)
    } else if !(forall|i: int| 0 <= i < n.len() ==> is_ascii_alnum(#[trigger] n[i]) || n[i] == '_') {
        Err("Offline names may only use letters, numbers, and underscore"@)
    } else {
        Ok(n)
    }
}

pub fn validate_offline_name(display_name: &str) -> (r: AppResult<String>)
    ensures
        match r {
            Ok(n) => offline_name(display_name@) == Ok::<Seq<char>, Seq<char>>(n@),
            Err(e) => offline_name(display_name@) == Err::<Seq<char>, Seq<char>>(e.message@),
        },
{
    let n = trimmed(&chars_of(display_name));
    if n.len() == 0 || utf8_len_capped(&n, 16).is_none() {
        return Err(AppError::lit("Offline profile name must be 1–16 characters"));
    }
    let mut i: usize = 0;
    while i < n.len()
        invariant
            i <= n.len(),
            n@ == trim(display_name@),
            n@.len() > 0,
            utf8_len(n@) <= 16,
            forall|j: int| 0 <= j < i ==> is_ascii_alnum(#[trigger] n@[j]) || n@[j] == '_',
        decreases n.len() - i,
    {
        if !(char_is_ascii_alnum(n[i]) || n[i] == '_') {
            assert(!(is_ascii_alnum(n@[i as int]) || n@[i as int] == '_'));
            return Err(AppError::lit("Offline names may only use letters, numbers, and underscore"));
        }
        i += 1;
    }
    Ok(string_of(&n))
}

/// The bytes `a..b` of `s` (as characters).
pub open spec fn byte_slice(s: Seq<char>, a: nat, b: nat) -> Seq<char> {
    byte_prefix_or_all(s, b).skip(byte_prefix_or_all(s, a).len() as int)
}

/// `s` has a character boundary at byte `b`.
pub open spec fn boundary(s: Seq<char>, b: nat) -> bool {
    exists|k: int| 0 <= k <= s.len() && utf8_len(#[trigger] s.take(k)) == b
}

/// A Minecraft profile id in dashed form: a 32-byte id is cut into groups of
/// 8, 4, 4, 4 and 12 bytes joined by `-`; any other id is kept.
pub open spec fn dashed_uuid(raw: Seq<char>) -> Seq<char> {
    if utf8_len(raw) == 32 {
        byte_slice(raw, 0, 8) + "-"@ + byte_slice(raw, 8, 12) + "-"@ + byte_slice(raw, 12, 16)
            + "-"@ + byte_slice(raw, 16, 20) + "-"@ + byte_slice(raw, 20, 32)
    } else {
        raw
    }
}

/// The number of characters that take exactly `b` bytes, when they exist.
fn chars_for_bytes(s: &Vec<char>, b: usize) -> (r: Option<usize>)
    requires
        b <= 32,
    ensures
        match r {
            Some(k) => k <= s@.len() && utf8_len(s@.take(k as int)) == b && byte_prefix_or_all(
                s@,
                b as nat,
            ) == s@.take(k as int),
            None => !boundary(s@, b as nat),
        },
{
    let mut n: usize = 0;
    let mut k: usize = 0;
    while k < s.len() && n < b
        invariant
            k <= s.len(),
            b <= 32,
            n == utf8_len(s@.take(k as int)),
            n <= b + 3,
            forall|j: int| 0 <= j < k ==> utf8_len(#[trigger] s@.take(j)) < b,
        decreases s.len() - k,
    {
        assert(s@.take(k + 1).drop_last() == s@.take(k as int));
        let u = s[k] as u32;
        let w: usize = if u < 0x80 {
            1
        } else if u < 0x800 {
            2
        } else if u < 0x10000 {
            3
        } else {
            4
        };
        n = n + w;
        k += 1;
    }
    if n == b {
        proof {
            let kk = choose|kk: int| 0 <= kk <= s@.len() && utf8_len(#[trigger] s@.take(kk)) == b;
            if kk < k {
                lemma_utf8_len_strict(s@, kk, k as int);
            } else if kk > k {
                lemma_utf8_len_strict(s@, k as int, kk);
            }
        }
        Some(k)
    } else {
        proof {
            assert forall|kk: int| 0 <= kk <= s@.len() implies utf8_len(#[trigger] s@.take(kk)) != b by {
                if kk > k {
                    lemma_utf8_len_strict(s@, k as int, kk);
                }
            }
        }
        None
    }
}

/// Whether `raw` has character boundaries at bytes 8, 12, 16 and 20.
pub open spec fn dash_points(raw: Seq<char>) -> bool {
    boundary(raw, 8) && boundary(raw, 12) && boundary(raw, 16) && boundary(raw, 20)
}

/// Dashes a 32-byte Minecraft profile id (see [`dashed_uuid`]). A 32-byte id
/// must split on character boundaries, as byte slicing requires.
pub fn normalize_uuid(raw: &str) -> (r: String)
    requires
        utf8_len(raw@) == 32 ==> dash_points(raw@),
    ensures
        r@ == dashed_uuid(raw@),
{
    let v = chars_of(raw);
    match crate::text::utf8_len_capped(&v, 32) {
        Some(n) => {
            if n != 32 {
                return raw.to_string();
            }
        },
        None => {
            return raw.to_string();
        },
    }
    let k8 = chars_for_bytes(&v, 8).unwrap();
    let k12 = chars_for_bytes(&v, 12).unwrap();
    let k16 = chars_for_bytes(&v, 16).unwrap();
    let k20 = chars_for_bytes(&v, 20).unwrap();
    assert(v@.take(v@.len() as int) == v@);
    assert(boundary(v@, 32));
    let k32 = chars_for_bytes(&v, 32).unwrap();
    proof {
        if k8 > k12 {
            lemma_utf8_len_strict(v@, k12 as int, k8 as int);
        }
        if k12 > k16 {
            lemma_utf8_len_strict(v@, k16 as int, k12 as int);
        }
        if k16 > k20 {
            lemma_utf8_len_strict(v@, k20 as int, k16 as int);
        }
        if k20 > k32 {
            lemma_utf8_len_strict(v@, k32 as int, k20 as int);
        }
    }
    let mut out = slice(&v, 0, k8);
    append_str(&mut out, "-");
    append(&mut out, &slice(&v, k8, k12));
    append_str(&mut out, "-");
    append(&mut out, &slice(&v, k12, k16));
    append_str(&mut out, "-");
    append(&mut out, &slice(&v, k16, k20));
    append_str(&mut out, "-");
    append(&mut out, &slice(&v, k20, k32));
    proof {
        assert(v@.take(k8 as int).skip(0) == v@.subrange(0, k8 as int));
        assert(v@.take(k12 as int).skip(k8 as int) == v@.subrange(k8 as int, k12 as int));
        assert(v@.take(k16 as int).skip(k12 as int) == v@.subrange(k12 as int, k16 as int));
        assert(v@.take(k20 as int).skip(k16 as int) == v@.subrange(k16 as int, k20 as int));
        assert(v@.take(k32 as int).skip(k20 as int) == v@.subrange(k20 as int, k32 as int));
        assert(byte_prefix_or_all(v@, 0) == v@.take(0)) by {
            assert(utf8_len(v@.take(0)) == 0) by {
                assert(v@.take(0).len() == 0);
            }
            let kk = choose|kk: int| 0 <= kk <= v@.len() && utf8_len(#[trigger] v@.take(kk)) == 0nat;
            if kk > 0 {
                lemma_utf8_len_strict(v@, 0, kk);
            }
        }
    }
    string_of(&out)
}

// ===========================================================================
// Microsoft sign-in
// ===========================================================================

/// The PKCE pair of a sign-in from random bytes: the verifier is the bytes
/// in URL-safe Base64 without padding, the challenge the same encoding of
/// the SHA-256 of the verifier's text.
pub fn pkce_pair(random: &[u8]) -> (r: (String, String))
    ensures
        r.0@ == base64url_of(random@),
        r.1@ == base64url_of(sha256_of(encode_utf8(r.0@))),
{
    let verifier = base64url_encode(random);
    let digest = sha256_digest(verifier.as_str().as_bytes());
    let challenge = base64url_encode(digest.as_slice());
    (verifier, challenge)
}

/// A query value: the UTF-8 of `s`, percent-encoded.
pub open spec fn enc(s: Seq<char>) -> Seq<char> {
    percent_encoded(encode_utf8(s))
}

/// The Microsoft authorization page of a sign-in.
pub open spec fn authorize_url_of(
    tenant: Seq<char>,
    client_id: Seq<char>,
    redirect: Seq<char>,
    state: Seq<char>,
    challenge: Seq<char>,
) -> Seq<char> {
    "https://login.microsoftonline.com/"@ + enc(tenant) + "/oauth2/v2.0/authorize?client_id="@
        + enc(client_id) + "&response_type=code&redirect_uri="@ + enc(redirect)
        + "&response_mode=query&scope="@ + enc("XboxLive.signin offline_access"@) + "&state="@
        + enc(state) + "&code_challenge="@ + enc(challenge) + "&code_challenge_method=S256"@
}

fn push_encoded(v: &mut Vec<char>, s: &str)
    ensures
        final(v)@ == old(v)@ + enc(s@),
{
    let e = url_encode(s);
    append_str(v, e.as_str());
}

/// The authorization page the browser opens for a sign-in.
pub fn authorize_url(tenant: &str, client_id: &str, redirect: &str, state: &str, challenge: &str) -> (r: String)
    ensures
        r@ == authorize_url_of(tenant@, client_id@, redirect@, state@, challenge@),
{
    let mut v = chars_of("https://login.microsoftonline.com/");
    push_encoded(&mut v, tenant);
    append_str(&mut v, "/oauth2/v2.0/authorize?client_id=");
    push_encoded(&mut v, client_id);
    append_str(&mut v, "&response_type=code&redirect_uri=");
    push_encoded(&mut v, redirect);
    append_str(&mut v, "&response_mode=query&scope=");
    push_encoded(&mut v, "XboxLive.signin offline_access");
    append_str(&mut v, "&state=");
    push_encoded(&mut v, state);
    append_str(&mut v, "&code_challenge=");
    push_encoded(&mut v, challenge);
    append_str(&mut v, "&code_challenge_method=S256");
    string_of(&v)
}

/// The token endpoint of a tenant.
pub fn token_url(tenant: &str) -> (r: String)
    ensures
        r@ == "https://login.microsoftonline.com/"@ + tenant@ + "/oauth2/v2.0/token"@,
{
    let mut v = chars_of("https://login.microsoftonline.com/");
    append_str(&mut v, tenant);
    append_str(&mut v, "/oauth2/v2.0/token");
    string_of(&v)
}

/// The form that trades an authorization code for tokens.
pub fn code_form(client_id: &str, code: &str, redirect: &str, verifier: &str) -> (r: Vec<(String, String)>)
    ensures
        pairs_view(r@) == seq![
            ("client_id"@, client_id@),
            ("grant_type"@, "authorization_code"@),
            ("code"@, code@),
            ("redirect_uri"@, redirect@),
            ("code_verifier"@, verifier@),
        ],
{
    let mut f: Vec<(String, String)> = Vec::new();
    f.push((lit("client_id"), lit(client_id)));
    f.push((lit("grant_type"), lit("authorization_code")));
    f.push((lit("code"), lit(code)));
    f.push((lit("redirect_uri"), lit(redirect)));
    f.push((lit("code_verifier"), lit(verifier)));
    assert(pairs_view(f@) =~= seq![
        ("client_id"@, client_id@),
        ("grant_type"@, "authorization_code"@),
        ("code"@, code@),
        ("redirect_uri"@, redirect@),
        ("code_verifier"@, verifier@),
    ]);
    f
}

/// The form that trades a refresh token for new tokens.
pub fn refresh_form(client_id: &str, refresh: &str) -> (r: Vec<(String, String)>)
    ensures
        pairs_view(r@) == seq![
            ("client_id"@, client_id@),
            ("grant_type"@, "refresh_token"@),
            ("refresh_token"@, refresh@),
            ("scope"@, "XboxLive.signin offline_access"@),
        ],
{
    let mut f: Vec<(String, String)> = Vec::new();
    f.push((lit("client_id"), lit(client_id)));
    f.push((lit("grant_type"), lit("refresh_token")));
    f.push((lit("refresh_token"), lit(refresh)));
    f.push((lit("scope"), lit("XboxLive.signin offline_access")));
    assert(pairs_view(f@) =~= seq![
        ("client_id"@, client_id@),
        ("grant_type"@, "refresh_token"@),
        ("refresh_token"@, refresh@),
        ("scope"@, "XboxLive.signin offline_access"@),
    ]);
    f
}

/// The Xbox Live user authentication request for a Microsoft token.
pub open spec fn xbox_request_of(ms_token: Seq<char>) -> JsonV {
    JsonV::Object(
        seq![
            ("Properties"@, JsonV::Object(
                seq![
                    ("AuthMethod"@, JsonV::Str("RPS"@)),
                    ("SiteName"@, JsonV::Str("user.auth.xboxlive.com"@)),
                    ("RpsTicket"@, JsonV::Str("d="@ + ms_token)),
                ],
            )),
            ("RelyingParty"@, JsonV::Str("http://auth.xboxlive.com"@)),
            ("TokenType"@, JsonV::Str("JWT"@)),
        ],
    )
}

pub fn xbox_request(ms_token: &str) -> (r: Json)
    ensures
        r@ == xbox_request_of(ms_token@),
{
    let mut ticket = chars_of("d=");
    append_str(&mut ticket, ms_token);
    let mut props: Vec<(String, Json)> = Vec::new();
    props.push((lit("AuthMethod"), Json::Str(lit("RPS"))));
    props.push((lit("SiteName"), Json::Str(lit("user.auth.xboxlive.com"))));
    props.push((lit("RpsTicket"), Json::Str(string_of(&ticket))));
    let p = object_of(props);
    assert(p@->Object_0 =~= xbox_request_of(ms_token@)->Object_0[0].1->Object_0);
    let mut m: Vec<(String, Json)> = Vec::new();
    m.push((lit("Properties"), p));
    m.push((lit("RelyingParty"), Json::Str(lit("http://auth.xboxlive.com"))));
    m.push((lit("TokenType"), Json::Str(lit("JWT"))));
    let r = object_of(m);
    assert(r@->Object_0 =~= xbox_request_of(ms_token@)->Object_0);
    r
}

/// The XSTS authorization request for an Xbox Live token.
pub open spec fn xsts_request_of(xbox_token: Seq<char>) -> JsonV {
    JsonV::Object(
        seq![
            ("Properties"@, JsonV::Object(
                seq![
                    ("SandboxId"@, JsonV::Str("RETAIL"@)),
                    ("UserTokens"@, JsonV::Array(seq![JsonV::Str(xbox_token)])),
                ],
            )),
            ("RelyingParty"@, JsonV::Str("rp://api.minecraftservices.com/"@)),
            ("TokenType"@, JsonV::Str("JWT"@)),
        ],
    )
}

pub fn xsts_request(xbox_token: &str) -> (r: Json)
    ensures
        r@ == xsts_request_of(xbox_token@),
{
    let mut toks: Vec<Json> = Vec::new();
    toks.push(Json::Str(lit(xbox_token)));
    proof {
        lemma_array_view(toks);
    }
    let arr = Json::Array(toks);
    assert(arr@->Array_0 =~= seq![JsonV::Str(xbox_token@)]);
    let mut props: Vec<(String, Json)> = Vec::new();
    props.push((lit("SandboxId"), Json::Str(lit("RETAIL"))));
    props.push((lit("UserTokens"), arr));
    let p = object_of(props);
    assert(p@->Object_0 =~= xsts_request_of(xbox_token@)->Object_0[0].1->Object_0);
    let mut m: Vec<(String, Json)> = Vec::new();
    m.push((lit("Properties"), p));
    m.push((lit("RelyingParty"), Json::Str(lit("rp://api.minecraftservices.com/"))));
    m.push((lit("TokenType"), Json::Str(lit("JWT"))));
    let r = object_of(m);
    assert(r@->Object_0 =~= xsts_request_of(xbox_token@)->Object_0);
    r
}

/// The Minecraft Services login request for an XSTS token and user hash.
pub open spec fn login_request_of(xsts: Seq<char>, uhs: Seq<char>) -> JsonV {
    JsonV::Object(seq![("identityToken"@, JsonV::Str("XBL3.0 x="@ + uhs + ";"@ + xsts))])
}

pub fn login_request(xsts: &str, uhs: &str) -> (r: Json)
    ensures
        r@ == login_request_of(xsts@, uhs@),
{
    let mut t = chars_of("XBL3.0 x=");
    append_str(&mut t, uhs);
    append_str(&mut t, ";");
    append_str(&mut t, xsts);
    let mut m: Vec<(String, Json)> = Vec::new();
    m.push((lit("identityToken"), Json::Str(string_of(&t))));
    let r = object_of(m);
    assert(r@->Object_0 =~= login_request_of(xsts@, uhs@)->Object_0);
    r
}

/// The string member `key` of a reply, or the error `missing`.
fn required_str(v: &Json, key: &str, missing: &str) -> (r: AppResult<String>)
    ensures
        match str_of(get(v@, key@)) {
            Some(t) => r matches Ok(x) && x@ == t,
            None => r matches Err(e) && e.message@ == missing@,
        },
{
    match str_field(v, key) {
        Some(t) => Ok(t),
        None => Err(AppError::lit(missing)),
    }
}

/// The token of an Xbox Live reply.
pub fn xbox_token(v: &Json) -> (r: AppResult<String>)
    ensures
        match str_of(get(v@, "Token"@)) {
            Some(t) => r matches Ok(x) && x@ == t,
            None => r matches Err(e) && e.message@ == "Xbox token missing"@,
        },
{
    required_str(v, "Token", "Xbox token missing")
}

/// `v[i]`: the item `i` of an array, `null` where there is none.
pub open spec fn item_at(v: JsonV, i: int) -> JsonV {
    match v {
        JsonV::Array(a) => if 0 <= i < a.len() {
            a[i]
        } else {
            JsonV::Null
        },
        _ => JsonV::Null,
    }
}

/// The user hash of an XSTS reply: `DisplayClaims.xui[0].uhs`.
pub open spec fn uhs_of(v: JsonV) -> Option<Seq<char>> {
    as_str(at(item_at(at(at(v, "DisplayClaims"@), "xui"@), 0), "uhs"@))
}

fn uhs_field(v: &Json) -> (r: Option<String>)
    ensures
        oview(r) == uhs_of(v@),
{
    let d = match v.get("DisplayClaims") {
        Some(d) => d,
        None => {
            return None;
        },
    };
    let x = match d.get("xui") {
        Some(x) => x,
        None => {
            return None;
        },
    };
    let a = match x.as_array() {
        Some(a) => a,
        None => {
            return None;
        },
    };
    if a.len() == 0 {
        return None;
    }
    assert(item_at(x@, 0) == a@[0]@);
    str_field(&a[0], "uhs")
}

/// The token and user hash of an XSTS reply.
pub fn xsts_tokens(v: &Json) -> (r: AppResult<(String, String)>)
    ensures
        match (str_of(get(v@, "Token"@)), uhs_of(v@)) {
            (None, _) => r matches Err(e) && e.message@ == "XSTS token missing"@,
            (Some(_), None) => r matches Err(e) && e.message@ == "XSTS uhs missing"@,
            (Some(t), Some(u)) => r matches Ok((x, y)) && x@ == t && y@ == u,
        },
{
    let token = match required_str(v, "Token", "XSTS token missing") {
        Ok(t) => t,
        Err(e) => {
            return Err(e);
        },
    };
    match uhs_field(v) {
        Some(u) => Ok((token, u)),
        None => Err(AppError::lit("XSTS uhs missing")),
    }
}

/// The access token of a Minecraft Services login reply.
pub fn minecraft_token(v: &Json) -> (r: AppResult<String>)
    ensures
        match str_of(get(v@, "access_token"@)) {
            Some(t) => r matches Ok(x) && x@ == t,
            None => r matches Err(e) && e.message@ == "Minecraft access token missing"@,
        },
{
    required_str(v, "access_token", "Minecraft access token missing")
}

/// A skin of a Minecraft profile.
pub struct McSkin {
    pub url: Option<String>,
    pub state: Option<String>,
}

/// The Minecraft Java profile of an account.
pub struct McProfile {
    pub id: String,
    pub name: String,
    pub skins: Option<Vec<McSkin>>,
}

/// The URL of the first active skin (when that skin has one).
pub open spec fn active_skin_of(skins: Seq<McSkin>) -> Option<Seq<char>>
    decreases skins.len(),
{
    if skins.len() == 0 {
        None
    } else if oview(skins[0].state) == Some("ACTIVE"@) {
        oview(skins[0].url)
    } else {
        active_skin_of(skins.drop_first())
    }
}

pub fn active_skin(skins: &Option<Vec<McSkin>>) -> (r: Option<String>)
    ensures
        oview(r) == match skins {
            Some(v) => active_skin_of(v@),
            None => None,
        },
{
    let v = match skins {
        Some(v) => v,
        None => {
            return None;
        },
    };
    let mut i: usize = 0;
    assert(v@.skip(0) =~= v@);
    while i < v.len()
        invariant
            i <= v.len(),
            active_skin_of(v@) == active_skin_of(v@.skip(i as int)),
            *skins == Some(*v),
        decreases v.len() - i,
    {
        assert(v@.skip(i as int)[0] == v@[i as int]);
        assert(v@.skip(i as int).drop_first() =~= v@.skip(i + 1));
        let active = match &v[i].state {
            Some(st) => str_eq(st.as_str(), "ACTIVE"),
            None => false,
        };
        if active {
            return copy_opt(&v[i].url);
        }
        i += 1;
    }
    None
}

// ===========================================================================
// The OAuth callback
// ===========================================================================

/// The first line of a text (std's `str::lines`), empty for empty text.
pub open spec fn first_line(s: Seq<char>) -> Seq<char> {
    match index_of(s, '\n') {
        Some(i) => if i > 0 && s[i - 1] == '\r' {
            s.take(i - 1)
        } else {
            s.take(i)
        },
        None => s,
    }
}

/// The request target of an HTTP request: the second word of its first line.
pub open spec fn request_path(req: Seq<char>) -> Seq<char> {
    let ws = words(first_line(req));
    if ws.len() > 1 {
        ws[1]
    } else {
        Seq::empty()
    }
}

/// The query of a request target: what follows its first `?`.
pub open spec fn query_of(path: Seq<char>) -> Seq<char> {
    match index_of(path, '?') {
        Some(i) => path.skip(i + 1),
        None => Seq::empty(),
    }
}

/// A `key=value` query piece, both sides percent-decoded; pieces without
/// `=` or that do not decode are dropped.
pub open spec fn param_of(piece: Seq<char>) -> Option<(Seq<char>, Seq<char>)> {
    match index_of(piece, '=') {
        None => None,
        Some(i) => match (url_decoded(piece.take(i)), url_decoded(piece.skip(i + 1))) {
            (Some(k), Some(v)) => Some((k, v)),
            _ => None,
        },
    }
}

/// The parameters of the query pieces, in order.
pub open spec fn params_of(pieces: Seq<Seq<char>>) -> Seq<(Seq<char>, Seq<char>)>
    decreases pieces.len(),
{
    if pieces.len() == 0 {
        Seq::empty()
    } else {
        match param_of(pieces.last()) {
            Some(p) => params_of(pieces.drop_last()).push(p),
            None => params_of(pieces.drop_last()),
        }
    }
}

/// The query parameters of an HTTP request.
pub open spec fn request_params(req: Seq<char>) -> Seq<(Seq<char>, Seq<char>)> {
    params_of(split(query_of(request_path(req)), '&'))
}

/// The value of parameter `k`: its last occurrence, as collecting the
/// pairs into a map keeps.
pub open spec fn param(ps: Seq<(Seq<char>, Seq<char>)>, k: Seq<char>) -> Option<Seq<char>>
    decreases ps.len(),
{
    if ps.len() == 0 {
        None
    } else if ps.last().0 == k {
        Some(ps.last().1)
    } else {
        param(ps.drop_last(), k)
    }
}

/// The page shown in the browser after the callback.
pub open spec fn callback_body(ps: Seq<(Seq<char>, Seq<char>)>, expected_state: Seq<char>) -> Seq<char> {
    if param(ps, "state"@) != Some(expected_state) {
        "State mismatch. You can close this tab."@
    } else if param(ps, "code"@) is Some {
        "Aureum received your Microsoft sign-in. You can close this tab."@
    } else {
        "Sign-in failed. You can close this tab."@
    }
}

/// The authorization code of the callback, or why there is none.
pub open spec fn callback_code(ps: Seq<(Seq<char>, Seq<char>)>, expected_state: Seq<char>) -> Result<Seq<char>, Seq<char>> {
    if param(ps, "state"@) != Some(expected_state) {
        Err("OAuth state mismatch"@)
    } else if param(ps, "error"@) is Some {
        Err("OAuth sign-in error: "@ + param(ps, "error"@)->Some_0)
    } else {
        match param(ps, "code"@) {
            Some(c) => Ok(c),
            None => Err("No authorization code returned"@),
        }
    }
}

/// The HTTP response that carries a callback page.
pub open spec fn callback_response(body: Seq<char>) -> Seq<char> {
    "HTTP/1.1 200 OK\r\nContent-Type: text/html; charset=utf-8\r\nConnection: close\r\n\r\n<!doctype html><html><body style=\"font-family:sans-serif;padding:2rem\">"@
        + body + "</body></html>"@
}

fn first_line_of(s: &Vec<char>) -> (r: Vec<char>)
    ensures
        r@ == first_line(s@),
{
    match find_char(s, '\n') {
        Some(i) => {
            proof {
                lemma_index_of(s@, '\n');
            }
            if i > 0 && s[i - 1] == '\r' {
                slice(s, 0, i - 1)
            } else {
                slice(s, 0, i)
            }
        },
        None => {
            proof {
                lemma_index_of(s@, '\n');
            }
            crate::text::copy(s)
        },
    }
}

fn param_piece(piece: &Vec<char>) -> (r: Option<(String, String)>)
    ensures
        match r {
            Some((k, v)) => param_of(piece@) == Some((k@, v@)),
            None => param_of(piece@) is None,
        },
{
    let i = match find_char(piece, '=') {
        Some(i) => i,
        None => {
            return None;
        },
    };
    proof {
        lemma_index_of(piece@, '=');
    }
    let k = string_of(&slice(piece, 0, i));
    let v = string_of(&slice(piece, i + 1, piece.len()));
    match (url_decode(k.as_str()), url_decode(v.as_str())) {
        (Some(dk), Some(dv)) => Some((dk, dv)),
        _ => None,
    }
}

/// The query parameters of an OAuth callback request (see [`request_params`]).
pub fn callback_params(request: &str) -> (r: Vec<(String, String)>)
    ensures
        pairs_view(r@) == request_params(request@),
{
    let line = first_line_of(&chars_of(request));
    let ws = split_words(string_of(&line).as_str());
    let path: Vec<char> = if ws.len() > 1 {
        chars_of(ws[1].as_str())
    } else {
        Vec::new()
    };
    assert(path@ == request_path(request@));
    let query: Vec<char> = match find_char(&path, '?') {
        Some(i) => {
            proof {
                lemma_index_of(path@, '?');
            }
            slice(&path, i + 1, path.len())
        },
        None => {
            proof {
                lemma_index_of(path@, '?');
            }
            Vec::new()
        },
    };
    assert(query@ == query_of(path@));
    let pieces = split_on(&query, '&');
    let mut out: Vec<(String, String)> = Vec::new();
    let mut i: usize = 0;
    while i < pieces.len()
        invariant
            i <= pieces.len(),
            views(pieces@) == split(query@, '&'),
            pairs_view(out@) == params_of(views(pieces@).take(i as int)),
        decreases pieces.len() - i,
    {
        assert(views(pieces@).take(i + 1).drop_last() =~= views(pieces@).take(i as int));
        assert(views(pieces@).take(i + 1).last() == pieces@[i as int]@);
        match param_piece(&pieces[i]) {
            Some(p) => {
                out.push(p);
                assert(pairs_view(out@) =~= params_of(views(pieces@).take(i as int)).push((p.0@, p.1@)));
            },
            None => {},
        }
        i += 1;
    }
    assert(views(pieces@).take(pieces.len() as int) =~= views(pieces@));
    out
}

fn param_value(ps: &Vec<(String, String)>, k: &str) -> (r: Option<String>)
    ensures
        oview(r) == param(pairs_view(ps@), k@),
{
    let mut i = ps.len();
    assert(pairs_view(ps@).take(i as int) =~= pairs_view(ps@));
    while i > 0
        invariant
            i <= ps.len(),
            param(pairs_view(ps@), k@) == param(pairs_view(ps@).take(i as int), k@),
        decreases i,
    {
        assert(pairs_view(ps@).take(i as int).drop_last() =~= pairs_view(ps@).take(i - 1));
        if str_eq(ps[i - 1].0.as_str(), k) {
            return Some(ps[i - 1].1.clone());
        }
        i -= 1;
    }
    None
}

/// What the OAuth callback answers and yields: the HTTP response carrying
/// the page (see [`callback_body`]) and the authorization code or the
/// refusal (see [`callback_code`]).
pub fn callback_outcome(request: &str, expected_state: &str) -> (r: (String, AppResult<String>))
    ensures
        r.0@ == callback_response(callback_body(request_params(request@), expected_state@)),
        match r.1 {
            Ok(c) => callback_code(request_params(request@), expected_state@) == Ok::<Seq<char>, Seq<char>>(c@),
            Err(e) => callback_code(request_params(request@), expected_state@) == Err::<Seq<char>, Seq<char>>(e.message@),
        },
{
    let ps = callback_params(request);
    let state = param_value(&ps, "state");
    let state_ok = match &state {
        Some(st) => str_eq(st.as_str(), expected_state),
        None => false,
    };
    let code = param_value(&ps, "code");
    let body = if !state_ok {
        "State mismatch. You can close this tab."
    } else if code.is_some() {
        "Aureum received your Microsoft sign-in. You can close this tab."
    } else {
        "Sign-in failed. You can close this tab."
    };
    let mut resp = chars_of("HTTP/1.1 200 OK\r\nContent-Type: text/html; charset=utf-8\r\nConnection: close\r\n\r\n<!doctype html><html><body style=\"font-family:sans-serif;padding:2rem\">");
    append_str(&mut resp, body);
    append_str(&mut resp, "</body></html>");
    let response = string_of(&resp);
    if !state_ok {
        return (response, Err(AppError::lit("OAuth state mismatch")));
    }
    match param_value(&ps, "error") {
        Some(err) => {
            let mut m = chars_of("OAuth sign-in error: ");
            append_str(&mut m, err.as_str());
            return (response, Err(AppError::msg(string_of(&m))));
        },
        None => {},
    }
    match code {
        Some(c) => (response, Ok(c)),
        None => (response, Err(AppError::lit("No authorization code returned"))),
    }
}

// ===========================================================================
// Profiles and sessions
// ===========================================================================

/// A profile as stored: `has_secret` tells whether a refresh token is kept.
pub fn profile_from_row(
    id: String,
    kind: String,
    display_name: String,
    uuid: Option<String>,
    skin_url: Option<String>,
    secret_ref: Option<String>,
    expires_at: Option<String>,
    created_at: String,
    updated_at: String,
) -> (p: Profile)
    ensures
        p.id == id,
        p.kind == kind,
        p.display_name == display_name,
        p.uuid == uuid,
        p.skin_url == skin_url,
        p.expires_at == expires_at,
        p.has_secret == secret_ref is Some,
        p.created_at == created_at,
        p.updated_at == updated_at,
{
    Profile {
        id,
        kind,
        display_name,
        uuid,
        skin_url,
        expires_at,
        has_secret: secret_ref.is_some(),
        created_at,
        updated_at,
    }
}

/// The first profile with id `id`, if any.
pub open spec fn profile_with_id(ps: Seq<Profile>, id: Seq<char>) -> Option<Profile>
    decreases ps.len(),
{
    if ps.len() == 0 {
        None
    } else if ps[0].id@ == id {
        Some(ps[0])
    } else {
        profile_with_id(ps.drop_first(), id)
    }
}

/// The profile with id `id` among the stored ones.
pub fn find_profile(profiles: Vec<Profile>, id: &str) -> (r: AppResult<Profile>)
    ensures
        match profile_with_id(profiles@, id@) {
            Some(p) => r == Ok::<Profile, AppError>(p),
            None => r matches Err(e) && e.message@ == "Profile not found"@,
        },
{
    let mut ps = profiles;
    let ghost all = ps@;
    let mut i: usize = 0;
    assert(all.skip(0) =~= all);
    while i < ps.len()
        invariant
            i <= ps.len(),
            ps@ == all,
            all == profiles@,
            profile_with_id(all, id@) == profile_with_id(all.skip(i as int), id@),
        decreases ps.len() - i,
    {
        assert(all.skip(i as int)[0] == all[i as int]);
        assert(all.skip(i as int).drop_first() =~= all.skip(i + 1));
        if str_eq(ps[i].id.as_str(), id) {
            return Ok(ps.remove(i));
        }
        i += 1;
    }
    Err(AppError::lit("Profile not found"))
}

/// The client id sign-in needs.
pub fn require_client_id(cfg: &AuthConfig) -> (r: AppResult<String>)
    ensures
        match cfg.client_id {
            Some(c) => r matches Ok(x) && x@ == c@,
            None => r matches Err(e) && e.message@ == "Missing AUREUM_MS_CLIENT_ID"@,
        },
{
    match &cfg.client_id {
        Some(c) => Ok(c.clone()),
        None => Err(AppError::lit("Missing AUREUM_MS_CLIENT_ID")),
    }
}

/// The keychain reference of a profile's refresh token, which an online
/// session needs.
pub fn require_secret_ref(secret_ref: Option<String>) -> (r: AppResult<String>)
    ensures
        match secret_ref {
            Some(s) => r == Ok::<String, AppError>(s),
            None => r matches Err(e) && e.message@ == "No refresh token in keychain for this profile"@,
        },
{
    match secret_ref {
        Some(s) => Ok(s),
        None => Err(AppError::lit("No refresh token in keychain for this profile")),
    }
}

/// The keychain reference a new Microsoft profile keeps its refresh token under.
pub fn refresh_secret_ref(id: &str) -> (r: String)
    ensures
        r@ == "ms-refresh-"@ + id@,
{
    cat("ms-refresh-", id)
}

/// Profiles that launch without a session token: offline and dry-run
/// profiles, and every profile when sign-in is a dry run.
pub open spec fn plays_offline(kind: Seq<char>, dry_run: bool) -> bool {
    kind == "offline"@ || kind == "microsoft-dry-run"@ || dry_run
}

/// The session of a profile that plays offline (see [`plays_offline`]):
/// its own uuid, else `fallback_uuid`; no token; user type `legacy`.
/// `None` when the profile needs an online session.
pub fn offline_session(profile: Profile, cfg: &AuthConfig, fallback_uuid: String) -> (r: Option<SessionDescriptor>)
    ensures
        r is Some <==> plays_offline(profile.kind@, cfg.dry_run),
        r matches Some(s) ==> {
            &&& s.profile_id == profile.id
            &&& s.uuid == match profile.uuid {
                Some(u) => u,
                None => fallback_uuid,
            }
            &&& s.name == profile.display_name
            &&& s.skin_url == profile.skin_url
            &&& s.access_token is None
            &&& s.user_type@ == "legacy"@
            &&& s.offline
        },
{
    if !(str_eq(profile.kind.as_str(), "offline") || str_eq(profile.kind.as_str(), "microsoft-dry-run")
        || cfg.dry_run) {
        return None;
    }
    let uuid = match profile.uuid {
        Some(u) => u,
        None => fallback_uuid,
    };
    Some(
        SessionDescriptor {
            profile_id: profile.id,
            uuid,
            name: profile.display_name,
            skin_url: profile.skin_url,
            access_token: None,
            user_type: lit("legacy"),
            offline: true,
        },
    )
}

/// The session of a signed-in profile: the Minecraft profile's dashed id
/// and name, the profile's skin, the Minecraft token, user type `msa`.
pub fn online_session(profile: Profile, mc: McProfile, mc_token: String) -> (s: SessionDescriptor)
    requires
        utf8_len(mc.id@) == 32 ==> dash_points(mc.id@),
    ensures
        s.profile_id == profile.id,
        s.uuid@ == dashed_uuid(mc.id@),
        s.name == mc.name,
        s.skin_url == profile.skin_url,
        s.access_token == Some(mc_token),
        s.user_type@ == "msa"@,
        !s.offline,
{
    SessionDescriptor {
        profile_id: profile.id,
        uuid: normalize_uuid(mc.id.as_str()),
        name: mc.name,
        skin_url: profile.skin_url,
        access_token: Some(mc_token),
        user_type: lit("msa"),
        offline: false,
    }
}

/// The stored fields of a new profile.
pub struct ProfileRow {
    pub id: String,
    pub kind: String,
    pub display_name: String,
    pub uuid: Option<String>,
    pub skin_url: Option<String>,
    pub secret_ref: Option<String>,
}

/// A new offline profile: the name must pass [`offline_name`]; `uuid` is a
/// fresh random id, not the one offline servers derive.
pub fn offline_profile_row(id: String, display_name: &str, uuid: String) -> (r: AppResult<ProfileRow>)
    ensures
        match offline_name(display_name@) {
            Ok(n) => r matches Ok(p) && p.id == id && p.kind@ == "offline"@ && p.display_name@ == n
                && p.uuid == Some(uuid) && p.skin_url is None && p.secret_ref is None,
            Err(m) => r matches Err(e) && e.message@ == m,
        },
{
    let name = match validate_offline_name(display_name) {
        Ok(n) => n,
        Err(e) => {
            return Err(e);
        },
    };
    Ok(ProfileRow { id, kind: lit("offline"), display_name: name, uuid: Some(uuid), skin_url: None, secret_ref: None })
}

/// The profile a dry-run sign-in creates: `Dev Player`.
pub fn dry_run_profile_row(id: String, uuid: String) -> (r: ProfileRow)
    ensures
        r.id == id,
        r.kind@ == "microsoft-dry-run"@,
        r.display_name@ == "Dev Player"@,
        r.uuid == Some(uuid),
        r.skin_url is None,
        r.secret_ref is None,
{
    ProfileRow {
        id,
        kind: lit("microsoft-dry-run"),
        display_name: lit("Dev Player"),
        uuid: Some(uuid),
        skin_url: None,
        secret_ref: None,
    }
}

/// The profile a Microsoft sign-in creates: the Minecraft name, dashed id
/// and active skin, and the keychain reference of its refresh token when
/// one was returned.
pub fn microsoft_profile_row(id: String, mc: &McProfile, has_refresh: bool) -> (r: ProfileRow)
    requires
        utf8_len(mc.id@) == 32 ==> dash_points(mc.id@),
    ensures
        r.id == id,
        r.kind@ == "microsoft"@,
        r.display_name@ == mc.name@,
        oview(r.uuid) == Some(dashed_uuid(mc.id@)),
        oview(r.skin_url) == match mc.skins {
            Some(v) => active_skin_of(v@),
            None => None,
        },
        oview(r.secret_ref) == if has_refresh {
            Some("ms-refresh-"@ + id@)
        } else {
            None
        },
{
    let secret_ref = if has_refresh {
        Some(refresh_secret_ref(id.as_str()))
    } else {
        None
    };
    ProfileRow {
        kind: lit("microsoft"),
        display_name: mc.name.clone(),
        uuid: Some(normalize_uuid(mc.id.as_str())),
        skin_url: active_skin(&mc.skins),
        secret_ref,
        id,
    }
}

} // verus!
