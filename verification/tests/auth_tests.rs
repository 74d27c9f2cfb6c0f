use aureum::auth::{
    active_skin, authorize_url, callback_outcome, callback_params, code_form, dry_run_profile_row,
    find_profile, login_request, microsoft_profile_row, minecraft_token, normalize_uuid,
    offline_profile_row, offline_session, online_session, pkce_pair, profile_from_row,
    refresh_form, refresh_secret_ref, require_client_id, require_secret_ref, token_url,
    validate_offline_name, xbox_request, xbox_token, xsts_request, xsts_tokens, AuthConfig,
    AuthStatus, McProfile, McSkin, Profile,
};
use aureum::json::Json;
use base64::Engine;
use sha2::Digest;

fn s(x: &str) -> String {
    x.to_string()
}

fn obj(members: Vec<(&str, Json)>) -> Json {
    Json::Object(members.into_iter().map(|(k, v)| (s(k), v)).collect())
}

fn cfg(client_id: Option<&str>, dry_run: bool) -> AuthConfig {
    AuthConfig { client_id: client_id.map(s), tenant: s("consumers"), redirect_port: 17890, dry_run }
}

fn profile(kind: &str, uuid: Option<&str>) -> Profile {
    profile_from_row(s("p1"), s(kind), s("Steve"), uuid.map(s), Some(s("https://skin")), None, None, s("t"), s("t"))
}

#[test]
fn settings_from_environment_values() {
    let c = AuthConfig::from_values(Some(s("  abc ")), None, Some(s("+8080")), None);
    assert_eq!(c.client_id.as_deref(), Some("abc"));
    assert_eq!(c.tenant, "consumers");
    assert_eq!(c.redirect_port, 8080);
    assert!(!c.dry_run);
    let c = AuthConfig::from_values(Some(s("   ")), Some(s("org")), Some(s("99999")), None);
    assert_eq!(c.client_id, None);
    assert_eq!(c.tenant, "org");
    assert_eq!(c.redirect_port, 17890);
    assert!(c.dry_run);
    let c = AuthConfig::from_values(Some(s("abc")), None, None, Some(s("TRUE")));
    assert!(c.dry_run);
    let st = AuthStatus::from_config(&c);
    assert_eq!(st.redirect_uri, "http://127.0.0.1:17890/auth/callback");
    assert!(st.has_client_id);
}

#[test]
fn pkce_pair_is_base64url_of_sha256() {
    let (verifier, challenge) = pkce_pair(&[0u8; 32]);
    assert_eq!(verifier, "A".repeat(43));
    let expected = base64::engine::general_purpose::URL_SAFE_NO_PAD.encode(sha2::Sha256::digest(verifier.as_bytes()));
    assert_eq!(challenge, expected);
    let (v2, _) = pkce_pair(&[0xfb, 0xff]);
    assert_eq!(v2, "-_8");
}

#[test]
fn authorize_url_encodes_its_parameters() {
    let u = authorize_url("consumers", "cid", "http://127.0.0.1:17890/auth/callback", "st ate", "ch");
    assert_eq!(
        u,
        "https://login.microsoftonline.com/consumers/oauth2/v2.0/authorize?client_id=cid&response_type=code&redirect_uri=http%3A%2F%2F127.0.0.1%3A17890%2Fauth%2Fcallback&response_mode=query&scope=XboxLive.signin%20offline_access&state=st%20ate&code_challenge=ch&code_challenge_method=S256"
    );
    assert_eq!(token_url("consumers"), "https://login.microsoftonline.com/consumers/oauth2/v2.0/token");
}

#[test]
fn token_forms() {
    let f = code_form("cid", "code1", "http://r", "ver");
    assert_eq!(f[1], (s("grant_type"), s("authorization_code")));
    assert_eq!(f[4], (s("code_verifier"), s("ver")));
    let f = refresh_form("cid", "rt");
    assert_eq!(f.len(), 4);
    assert_eq!(f[2], (s("refresh_token"), s("rt")));
    assert_eq!(f[3], (s("scope"), s("XboxLive.signin offline_access")));
}

#[test]
fn xbox_chain_requests() {
    let x = xbox_request("tok");
    let props = x.get("Properties").unwrap();
    assert_eq!(props.get("RpsTicket").unwrap().as_str(), Some("d=tok"));
    assert_eq!(props.get("AuthMethod").unwrap().as_str(), Some("RPS"));
    assert_eq!(x.get("RelyingParty").unwrap().as_str(), Some("http://auth.xboxlive.com"));
    let x = xsts_request("xb");
    let toks = x.get("Properties").unwrap().get("UserTokens").unwrap().as_array().unwrap();
    assert_eq!(toks[0].as_str(), Some("xb"));
    let l = login_request("XS", "UH");
    assert_eq!(l.get("identityToken").unwrap().as_str(), Some("XBL3.0 x=UH;XS"));
}

#[test]
fn xbox_chain_replies() {
    assert_eq!(xbox_token(&obj(vec![("Token", Json::Str(s("T")))])).ok().unwrap(), "T");
    assert_eq!(xbox_token(&obj(vec![])).err().unwrap().message, "Xbox token missing");
    let claims = obj(vec![("xui", Json::Array(vec![obj(vec![("uhs", Json::Str(s("H")))])]))]);
    let v = obj(vec![("Token", Json::Str(s("X"))), ("DisplayClaims", claims)]);
    let (t, u) = xsts_tokens(&v).ok().unwrap();
    assert_eq!((t.as_str(), u.as_str()), ("X", "H"));
    let v = obj(vec![("Token", Json::Str(s("X"))), ("DisplayClaims", obj(vec![("xui", Json::Array(vec![]))]))]);
    assert_eq!(xsts_tokens(&v).err().unwrap().message, "XSTS uhs missing");
    assert_eq!(xsts_tokens(&obj(vec![])).err().unwrap().message, "XSTS token missing");
    assert_eq!(minecraft_token(&obj(vec![("access_token", Json::Str(s("M")))])).ok().unwrap(), "M");
    assert_eq!(minecraft_token(&obj(vec![])).err().unwrap().message, "Minecraft access token missing");
}

#[test]
fn callback_yields_the_code() {
    let req = "GET /auth/callback?code=a%2Fb&state=xyz HTTP/1.1\r\nHost: 127.0.0.1\r\n\r\n";
    let (resp, code) = callback_outcome(req, "xyz");
    assert_eq!(code.ok().unwrap(), "a/b");
    assert!(resp.starts_with("HTTP/1.1 200 OK\r\n"));
    assert!(resp.contains("Aureum received your Microsoft sign-in. You can close this tab."));
    let params = callback_params(req);
    assert_eq!(params, vec![(s("code"), s("a/b")), (s("state"), s("xyz"))]);
}

#[test]
fn callback_refusals() {
    let (resp, r) = callback_outcome("GET /cb?code=c&state=other HTTP/1.1\r\n", "xyz");
    assert_eq!(r.err().unwrap().message, "OAuth state mismatch");
    assert!(resp.contains("State mismatch. You can close this tab."));
    let (_, r) = callback_outcome("GET /cb?error=access_denied&state=xyz HTTP/1.1\r\n", "xyz");
    assert_eq!(r.err().unwrap().message, "OAuth sign-in error: access_denied");
    let (resp, r) = callback_outcome("GET /cb?state=xyz HTTP/1.1\r\n", "xyz");
    assert_eq!(r.err().unwrap().message, "No authorization code returned");
    assert!(resp.contains("Sign-in failed. You can close this tab."));
    let (_, r) = callback_outcome("", "xyz");
    assert_eq!(r.err().unwrap().message, "OAuth state mismatch");
    let (_, r) = callback_outcome("GET /cb?state=a&state=xyz&code=k HTTP/1.1", "xyz");
    assert_eq!(r.ok().unwrap(), "k");
}

#[test]
fn uuids_are_dashed() {
    assert_eq!(normalize_uuid("0123456789abcdef0123456789abcdef"), "01234567-89ab-cdef-0123-456789abcdef");
    assert_eq!(normalize_uuid("short"), "short");
}

#[test]
fn offline_names() {
    assert_eq!(validate_offline_name("  Steve_1 ").ok().unwrap(), "Steve_1");
    assert_eq!(validate_offline_name("   ").err().unwrap().message, "Offline profile name must be 1–16 characters");
    assert_eq!(
        validate_offline_name("abcdefghijklmnopq").err().unwrap().message,
        "Offline profile name must be 1–16 characters"
    );
    assert_eq!(
        validate_offline_name("bad name").err().unwrap().message,
        "Offline names may only use letters, numbers, and underscore"
    );
    let row = offline_profile_row(s("id1"), "Alex", s("u1")).ok().unwrap();
    assert_eq!(row.kind, "offline");
    assert_eq!(row.display_name, "Alex");
    assert_eq!(row.secret_ref, None);
}

#[test]
fn offline_profiles_get_no_token() {
    let sess = offline_session(profile("offline", None), &cfg(None, false), s("fallback")).unwrap();
    assert_eq!(sess.access_token, None);
    assert_eq!(sess.uuid, "fallback");
    assert_eq!(sess.user_type, "legacy");
    assert!(sess.offline);
    let sess = offline_session(profile("microsoft", Some("u9")), &cfg(Some("c"), true), s("f")).unwrap();
    assert_eq!(sess.uuid, "u9");
    assert!(offline_session(profile("microsoft", Some("u9")), &cfg(Some("c"), false), s("f")).is_none());
}

#[test]
fn online_sessions_and_profiles() {
    let mc = McProfile {
        id: s("0123456789abcdef0123456789abcdef"),
        name: s("Notch"),
        skins: Some(vec![
            McSkin { url: Some(s("https://old")), state: Some(s("INACTIVE")) },
            McSkin { url: Some(s("https://active")), state: Some(s("ACTIVE")) },
        ]),
    };
    let sess = online_session(profile("microsoft", None), McProfile { id: mc.id.clone(), name: mc.name.clone(), skins: None }, s("tok"));
    assert_eq!(sess.uuid, "01234567-89ab-cdef-0123-456789abcdef");
    assert_eq!(sess.name, "Notch");
    assert_eq!(sess.access_token.as_deref(), Some("tok"));
    assert_eq!(sess.user_type, "msa");
    assert!(!sess.offline);
    let row = microsoft_profile_row(s("ID"), &mc, true);
    assert_eq!(row.skin_url.as_deref(), Some("https://active"));
    assert_eq!(row.secret_ref.as_deref(), Some("ms-refresh-ID"));
    assert_eq!(row.uuid.as_deref(), Some("01234567-89ab-cdef-0123-456789abcdef"));
    assert_eq!(microsoft_profile_row(s("ID"), &mc, false).secret_ref, None);
    assert_eq!(active_skin(&None), None);
    let dry = dry_run_profile_row(s("d"), s("u"));
    assert_eq!(dry.display_name, "Dev Player");
    assert_eq!(dry.secret_ref, None);
    assert_eq!(refresh_secret_ref("x"), "ms-refresh-x");
}

#[test]
fn profile_lookups_and_requirements() {
    assert_eq!(find_profile(vec![profile("offline", None)], "p1").ok().unwrap().display_name, "Steve");
    assert_eq!(find_profile(vec![], "p1").err().unwrap().message, "Profile not found");
    assert!(profile_from_row(s("a"), s("k"), s("n"), None, None, Some(s("ref")), None, s("t"), s("t")).has_secret);
    assert_eq!(require_client_id(&cfg(None, true)).err().unwrap().message, "Missing AUREUM_MS_CLIENT_ID");
    assert_eq!(require_client_id(&cfg(Some("c"), false)).ok().unwrap(), "c");
    assert_eq!(
        require_secret_ref(None).err().unwrap().message,
        "No refresh token in keychain for this profile"
    );
}
