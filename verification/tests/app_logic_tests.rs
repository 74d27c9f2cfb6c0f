use aureum::author::{
    AuthorProject, AuthorProjectPatch, ModrinthOauthConfig, NewAuthorProject, RemoteModrinthProject,
    UploadAuthorMediaRequest,
};
use aureum::catalog::{cache_file, cache_meta_key, cache_name, cache_outcome, if_none_match, cache_entry};
use aureum::commands::{
    app_info, changed_proxy, find_template, instances_root_of, launch_profile, moves_instances_root,
    startup_proxy, template_request, upgrade_patch, user_agent, with_setting_defaults,
};
use aureum::creator::{
    access_token, author_status, check_image_size, check_pat, dry_run_gallery, featured_note,
    gallery_edit_target, gallery_edit_url, gallery_of_reply, gallery_upload_url, icon_url,
    media_project_id, modrinth_authorize_url, oauth_credentials, simulated, token_lifetime,
    user_projects_url,
};
use aureum::digest::{sha1_matches, sha512_matches};
use aureum::drafts::{
    check_deleted, find_linked, get_project, imported_draft, link_patch, new_project, project_from_row,
    update_project,
};
use aureum::instances::{apply_patch, clone_request, new_instance, row_to_instance, starter_dirs, templates, Instance, InstancePatch, NewInstance};
use aureum::json::Json;
use aureum::launch::{tail_log, tail_paths, LaunchTable};
use aureum::mods::{sort_mods, toggle_jar, InstalledMod};
use aureum::mrpack::{export_deps, loader_from_deps};
use aureum::resolve::{lock_hash, Lockfile, LockfileEntry};

fn s(x: &str) -> String {
    x.to_string()
}

fn inst(loader: &str, loader_version: Option<&str>) -> Instance {
    row_to_instance(
        s("0123456789"), s("Pack"), s(loader), s("1.21.1"), loader_version.map(s), s("/g"), None, 2048, None, 1,
        None, None, s("t0"), s("t0"),
    )
}

fn empty_patch() -> InstancePatch {
    InstancePatch {
        name: None,
        java_path: None,
        memory_mb: None,
        jvm_args: None,
        keep_open: None,
        icon: None,
        game_version: None,
        loader: None,
        loader_version: None,
    }
}

fn new_inst(memory: Option<i64>) -> NewInstance {
    NewInstance {
        name: s("New"),
        loader: s("fabric"),
        game_version: s("1.21.1"),
        loader_version: None,
        java_path: None,
        memory_mb: memory,
        jvm_args: None,
        keep_open: None,
    }
}

fn modrinth_cfg(id: Option<&str>, secret: Option<&str>, dry: bool) -> ModrinthOauthConfig {
    ModrinthOauthConfig::from_values(id.map(s), secret.map(s), None, None, if dry { Some(s("1")) } else { None })
}

fn lock_entry(pid: &str, vid: &str) -> LockfileEntry {
    LockfileEntry {
        path: format!("/g/mods/{pid}.jar"),
        sha1: None,
        sha512: None,
        source: s("modrinth"),
        project_id: Some(s(pid)),
        version_id: Some(s(vid)),
        filename: None,
        pinned: false,
        enabled: true,
    }
}

fn installed(name: &str, order: i64) -> InstalledMod {
    InstalledMod {
        id: s(name),
        instance_id: s("i"),
        project_id: s(name),
        version_id: s("v"),
        filename: s(name),
        source: s("modrinth"),
        sha512: None,
        sha1: None,
        pinned: false,
        enabled: true,
        channel: None,
        update_version_id: None,
        display_name: None,
        version_number: None,
        sort_order: order,
        compat_status: None,
    }
}

fn draft() -> AuthorProject {
    project_from_row(
        s("d1"), s("Title"), Some(s("slug")), s("sum"), s("desc"), s("mod"), s("draft"), Some(s("")), None, s("t"), s("t"),
    )
}

#[test]
fn app_identity_and_settings() {
    let info = app_info("0.1.0", Some(s("true")), s("/data"), s("/data/instances"));
    assert_eq!(info.name, "Aureum");
    assert!(info.disclaimer_accepted);
    assert!(info.disclaimer.starts_with("NOT AN OFFICIAL MINECRAFT PRODUCT"));
    assert!(!app_info("0.1.0", Some(s("yes")), s("/d"), s("/r")).disclaimer_accepted);
    assert_eq!(user_agent("0.1.0"), "Aureum/0.1.0 (dev.aureum.launcher; +https://modrinth.com)");
    assert_eq!(startup_proxy(Some(s(""))), None);
    assert_eq!(changed_proxy("  http://p:8080 ").as_deref(), Some("http://p:8080"));
    assert_eq!(changed_proxy("   "), None);
    assert_eq!(instances_root_of(None, "/data"), "/data/instances");
    assert_eq!(instances_root_of(Some(s("/mine")), "/data"), "/mine");
    assert!(moves_instances_root("instances_root", " /x "));
    assert!(!moves_instances_root("instances_root", "  "));
}

#[test]
fn new_instance_defaults_from_settings() {
    let n = with_setting_defaults(new_inst(None), Some(s("-4096")), Some(s("/java")), None);
    assert_eq!(n.memory_mb, Some(-4096));
    assert_eq!(n.java_path.as_deref(), Some("/java"));
    assert_eq!(with_setting_defaults(new_inst(None), Some(s("+3072")), None, None).memory_mb, Some(3072));
    assert_eq!(with_setting_defaults(new_inst(None), Some(s("lots")), None, None).memory_mb, None);
    assert_eq!(with_setting_defaults(new_inst(None), Some(s("9223372036854775808")), None, None).memory_mb, None);
    assert_eq!(with_setting_defaults(new_inst(Some(1)), Some(s("5")), None, None).memory_mb, Some(1));
    let i = new_instance(new_inst(None), s("id"), s("/g"), s("now")).ok().unwrap();
    assert_eq!(i.memory_mb, 2048);
    assert!(i.keep_open);
    let mut bad = new_inst(None);
    bad.loader = s("rift");
    assert_eq!(new_instance(bad, s("id"), s("/g"), s("now")).err().unwrap().message, "Unsupported loader: rift");
    let dirs = starter_dirs("/g");
    assert_eq!(dirs[0], "/g/mods");
    assert_eq!(dirs[7], "/g/screenshots");
    assert_eq!(clone_request(&inst("fabric", None)).name, "Pack (copy)");
}

#[test]
fn templates_and_profiles() {
    let t = find_template(templates(), "vanilla-latest").ok().unwrap();
    assert_eq!(t.loader, "vanilla");
    assert_eq!(find_template(templates(), "nope").err().unwrap().message, "Unknown template");
    let n = template_request(t, None, s("1.21.4"));
    assert_eq!(n.name, "Vanilla Latest");
    assert_eq!(n.game_version, "1.21.4");
    assert_eq!(n.keep_open, Some(true));
    assert_eq!(upgrade_patch("  ", None, None).err().unwrap().message, "Minecraft version is required");
    assert_eq!(upgrade_patch(" 1.21.4 ", None, None).ok().unwrap().game_version.as_deref(), Some("1.21.4"));
    assert_eq!(launch_profile(None, Some(s("p"))).ok().unwrap(), "p");
    assert_eq!(
        launch_profile(None, None).err().unwrap().message,
        "Select a profile in Accounts before playing"
    );
}

#[test]
fn patches_update_instances() {
    let mut p = empty_patch();
    p.loader = Some(s(" FABRIC "));
    p.loader_version = Some(s(" 0.16.0 "));
    p.game_version = Some(s("  "));
    let i = apply_patch(inst("quilt", Some("0.1")), p, s("t1")).ok().unwrap();
    assert_eq!(i.loader, "fabric");
    assert_eq!(i.loader_version.as_deref(), Some("0.16.0"));
    assert_eq!(i.game_version, "1.21.1");
    let mut p = empty_patch();
    p.loader = Some(s("Vanilla"));
    let i = apply_patch(inst("fabric", Some("0.16.0")), p, s("t1")).ok().unwrap();
    assert_eq!(i.loader, "vanilla");
    assert_eq!(i.loader_version, None);
    let mut p = empty_patch();
    p.loader = Some(s("Rift"));
    assert_eq!(apply_patch(inst("fabric", None), p, s("t1")).err().unwrap().message, "Unsupported loader 'rift'");
}

#[test]
fn empty_patch_keeps_instance() {
    let before = inst("fabric", Some("0.16.0"));
    let after = apply_patch(inst("fabric", Some("0.16.0")), empty_patch(), s("t1")).ok().unwrap();
    assert_eq!(after.updated_at, "t1");
    assert_eq!(after.created_at, before.created_at);
    assert_eq!(after.name, before.name);
    assert_eq!(after.loader, before.loader);
    assert_eq!(after.loader_version, before.loader_version);
    assert_eq!(after.game_version, before.game_version);
    assert_eq!(after.memory_mb, before.memory_mb);
    assert_eq!(after.keep_open, before.keep_open);
}

#[test]
fn drafts_are_created_and_updated() {
    let n = NewAuthorProject { title: s("  My Mod "), slug: Some(s("  ")), summary: None, description: None, project_type: None };
    let p = new_project(n, s("id"), s("now")).ok().unwrap();
    assert_eq!(p.title, "My Mod");
    assert_eq!(p.slug, None);
    assert_eq!(p.project_type, "mod");
    assert_eq!(p.status, "draft");
    let blank = NewAuthorProject { title: s(" "), slug: None, summary: None, description: None, project_type: None };
    assert_eq!(new_project(blank, s("id"), s("now")).err().unwrap().message, "Title is required");
    assert_eq!(draft().modrinth_id, None);
    let patch = AuthorProjectPatch {
        title: Some(s(" New ")),
        slug: Some(s(" ")),
        summary: None,
        description: None,
        project_type: None,
        status: Some(s("bogus")),
        modrinth_id: Some(s("M1")),
        local_path: Some(s("")),
    };
    let u = update_project(draft(), patch, s("later")).ok().unwrap();
    assert_eq!(u.title, "New");
    assert_eq!(u.slug, None);
    assert_eq!(u.status, "draft");
    assert_eq!(u.modrinth_id.as_deref(), Some("M1"));
    assert_eq!(u.local_path, None);
    assert_eq!(u.updated_at, "later");
    assert_eq!(check_deleted(0).err().unwrap().message, "Author project not found");
    assert_eq!(get_project(vec![], "x").err().unwrap().message, "Author project not found");
    let remote = RemoteModrinthProject {
        id: s("M1"),
        slug: s("my-mod"),
        title: s("My Mod"),
        description: s("d"),
        project_type: s("mod"),
        icon_url: None,
    };
    assert_eq!(link_patch(&remote).status.as_deref(), Some("checklist"));
    assert_eq!(imported_draft(&remote).description.as_deref(), Some(""));
    assert!(find_linked(vec![u], "M1").is_some());
}

#[test]
fn creator_status_notes() {
    let dry = modrinth_cfg(None, None, true);
    let (st, clear) = author_status(&dry, None, None, false, false, false, None, None);
    assert!(st.note.starts_with("MODRINTH_AUTH_DRY_RUN=1"));
    assert!(!clear);
    let ready = modrinth_cfg(Some("id"), Some("sec"), false);
    let (st, clear) = author_status(&ready, Some(s("oauth")), Some(s("2020-01-01T00:00:00Z")), true, true, false, Some(s("Ann")), None);
    assert!(st.expired && !st.connected && clear);
    assert_eq!(st.note, "Modrinth session expired for Ann. Reconnect to continue publishing.");
    let (st, _) = author_status(&ready, Some(s("pat")), Some(s("2020-01-01T00:00:00Z")), true, true, true, Some(s("")), None);
    assert!(!st.expired && st.connected);
    assert_eq!(st.note, "Connected as Modrinth user. Tokens stay in the OS keychain.");
    assert_eq!(st.redirect_uri, "http://127.0.0.1:17891/modrinth/callback");
    let half = modrinth_cfg(Some("id"), None, false);
    let (st, _) = author_status(&half, None, None, false, false, false, None, None);
    assert!(st.note.starts_with("MODRINTH_CLIENT_ID is set, but MODRINTH_CLIENT_SECRET is missing."));
    assert!(simulated(&ready, &Some(s("dry-run"))));
    assert_eq!(oauth_credentials(&half).err().unwrap().message.as_str(), "Missing MODRINTH_CLIENT_SECRET (required by Modrinth token exchange). Or use connect_with_pat.");
}

#[test]
fn creator_tokens_and_urls() {
    assert_eq!(
        modrinth_authorize_url("id", "http://127.0.0.1:17891/modrinth/callback", "A+B", "st"),
        "https://modrinth.com/auth/authorize?response_type=code&client_id=id&redirect_uri=http%3A%2F%2F127.0.0.1%3A17891%2Fmodrinth%2Fcallback&scope=A%2BB&state=st"
    );
    assert_eq!(token_lifetime(None), 3600);
    assert_eq!(check_pat("  mrp_x ").ok().unwrap(), "mrp_x");
    assert_eq!(check_pat("").err().unwrap().message, "Personal access token is empty");
    assert_eq!(access_token(true, &None, None).err().unwrap().message, "Modrinth session expired. Reconnect from the Author page.");
    assert_eq!(access_token(false, &Some(s("dry-run")), None).ok().unwrap(), "dry-run-token");
    assert_eq!(
        access_token(false, &None, None).err().unwrap().message,
        "Not connected to Modrinth. Use Connect Modrinth or a personal access token."
    );
    assert_eq!(user_projects_url(Some(s("u 1"))).ok().unwrap(), "https://api.modrinth.com/v2/user/u%201/projects");
    assert_eq!(user_projects_url(Some(s(""))).err().unwrap().message, "Missing Modrinth user id — reconnect");
    assert_eq!(icon_url("AB", "png"), "https://api.modrinth.com/v2/project/AB/icon?ext=png");
    let req = UploadAuthorMediaRequest {
        project_id: s("AB"),
        file_path: s("/x.png"),
        featured: Some(true),
        title: Some(s(" Hi there ")),
        description: Some(s("  ")),
    };
    assert_eq!(
        gallery_upload_url("AB", "png", &req),
        "https://api.modrinth.com/v2/project/AB/gallery?ext=png&featured=true&title=Hi%20there"
    );
    assert_eq!(
        gallery_edit_url("AB", "https://cdn/x.png", Some(false)),
        "https://api.modrinth.com/v2/project/AB/gallery?url=https%3A%2F%2Fcdn%2Fx.png&featured=false"
    );
    assert_eq!(featured_note(true, false), "Dry-run: set featured=false.");
    assert_eq!(media_project_id(" ").err().unwrap().message, "Modrinth project id is required");
    assert_eq!(
        gallery_edit_target("AB", " ").err().unwrap().message,
        "project id and gallery image url are required"
    );
    assert_eq!(check_image_size(300 * 1024, 256 * 1024).err().unwrap().message, "Image too large (max 256 KiB)");
    assert_eq!(check_image_size(0, 256 * 1024).err().unwrap().message, "Image file is empty");
    assert!(check_image_size(10, 256 * 1024).is_ok());
    assert_eq!(dry_run_gallery()[0].ordering, Some(0));
}

#[test]
fn gallery_replies() {
    let img = |url: Option<&str>, ordering: &str| {
        let mut m = vec![(s("featured"), Json::Bool(true)), (s("ordering"), Json::Number(s(ordering)))];
        if let Some(u) = url {
            m.push((s("url"), Json::Str(s(u))));
        }
        Json::Object(m)
    };
    let v = Json::Object(vec![(s("gallery"), Json::Array(vec![img(Some("https://a"), "-3"), img(None, "1"), img(Some("https://b"), "1.5")]))]);
    let g = gallery_of_reply(&v);
    assert_eq!(g.len(), 2);
    assert_eq!(g[0].url, "https://a");
    assert_eq!(g[0].ordering, Some(-3));
    assert!(g[0].featured);
    assert_eq!(g[1].ordering, None);
}

#[test]
fn lockfile_laws_on_values() {
    let mut lock = Lockfile::empty("i");
    lock.upsert_mod(lock_entry("sodium", "v1"));
    lock.upsert_mod(lock_entry("lithium", "v1"));
    lock.upsert_mod(lock_entry("sodium", "v2"));
    assert_eq!(lock.files.len(), 2);
    assert_eq!(lock.files[1].version_id.as_deref(), Some("v2"));
    lock.upsert_mod(lock_entry("sodium", "v2"));
    assert_eq!(lock.files.len(), 2);
    lock.remove_project("sodium");
    assert_eq!(lock.files.len(), 1);
    lock.set_pinned("lithium", true);
    lock.set_enabled("lithium", false);
    assert!(lock.files[0].pinned && !lock.files[0].enabled);
    assert_eq!(lock_hash(b"hello"), "2cf24dba5fb0a30e26e83b2ac5b9e29e1b161e5c1fa7425e73043362938b9824");
}

#[test]
fn digests_ignore_letter_case() {
    assert!(sha1_matches(b"hello", "AAF4C61DDCC5E8A2DABEDE0F3B482CD9AEA9434D"));
    assert!(!sha1_matches(b"hello", "aaf4c61ddcc5e8a2dabede0f3b482cd9aea9434e"));
    assert!(sha512_matches(
        b"hello",
        "9b71d224bd62f3785d96d46ad3ea3d73319bfbc2890caadae2dff72519673ca72323c3d99ba5c11d7c7acc6e14b8c5da0c4663475c2e5c3adef46f73bcdec043"
    ));
}

#[test]
fn catalog_cache_decisions() {
    assert_eq!(cache_meta_key("https://x"), "modrinth:https://x");
    assert_eq!(cache_name("hello"), "2cf24dba5fb0a30e26e83b2ac5b9e29e1b161e5c1fa7425e73043362938b9824.json");
    assert_eq!(
        cache_file("/c", "hello"),
        "/c/modrinth/2cf24dba5fb0a30e26e83b2ac5b9e29e1b161e5c1fa7425e73043362938b9824.json"
    );
    assert_eq!(if_none_match(&Some((s("\"e1\""), s("/p")))).as_deref(), Some("\"e1\""));
    assert_eq!(if_none_match(&Some((s(""), s("/p")))), None);
    assert_eq!(cache_entry(None, Some(s("/p"))).unwrap().0, "");
    assert!(cache_entry(Some(s("e")), None).is_none());
    assert_eq!(cache_outcome(304, "304 Not Modified", Some(s("/p")), "u").ok().unwrap().as_deref(), Some("/p"));
    assert_eq!(cache_outcome(200, "200 OK", Some(s("/p")), "u").ok().unwrap(), None);
    assert_eq!(
        cache_outcome(304, "304 Not Modified", None, "u").err().unwrap().message,
        "Modrinth request failed (304 Not Modified): u"
    );
    assert_eq!(
        cache_outcome(404, "404 Not Found", None, "https://x").err().unwrap().message,
        "Modrinth request failed (404 Not Found): https://x"
    );
}

#[test]
fn launch_table_and_log_tail() {
    let mut t = LaunchTable::new();
    t.insert("a", 10);
    t.insert("b", 20);
    assert_eq!(t.get("a"), Some(10));
    assert_eq!(t.remove("a"), Some(10));
    assert_eq!(t.get("a"), None);
    assert_eq!(t.get("b"), Some(20));
    let texts = vec![s("one\ntwo\n"), s("three\r\nfour")];
    assert_eq!(tail_log(&texts, 3), vec![s("two"), s("three"), s("four")]);
    assert_eq!(tail_log(&texts, 10).len(), 4);
    assert_eq!(tail_paths(&inst("fabric", None))[1], "/g/logs/aureum-launch.log");
}

#[test]
fn mods_toggle_and_order() {
    let (from, to) = toggle_jar("/g/mods", "sodium.jar", false);
    assert_eq!((from.as_str(), to.as_str()), ("/g/mods/sodium.jar", "/g/mods/sodium.jar.disabled"));
    let (back_from, back_to) = toggle_jar("/g/mods", "sodium.jar", true);
    assert_eq!(back_from, to);
    assert_eq!(back_to, from);
    let sorted = sort_mods(vec![installed("b.jar", 1), installed("Z.jar", 0), installed("a.jar", 1)]);
    let names: Vec<&str> = sorted.iter().map(|m| m.filename.as_str()).collect();
    assert_eq!(names, vec!["Z.jar", "a.jar", "b.jar"]);
}

#[test]
fn exported_pack_reads_back_the_loader() {
    let (loader, version, game) = loader_from_deps(&export_deps(&inst("neoforge", Some("21.1.66")))).ok().unwrap();
    assert_eq!((loader.as_str(), version.as_deref(), game.as_str()), ("neoforge", Some("21.1.66"), "1.21.1"));
    let (loader, version, _) = loader_from_deps(&export_deps(&inst("vanilla", None))).ok().unwrap();
    assert_eq!((loader.as_str(), version), ("vanilla", None));
    let (loader, _, _) = loader_from_deps(&export_deps(&inst("fabric", None))).ok().unwrap();
    assert_eq!(loader, "vanilla");
    assert_eq!(loader_from_deps(&[]).err().unwrap().message, "mrpack is missing dependencies.minecraft");
}
