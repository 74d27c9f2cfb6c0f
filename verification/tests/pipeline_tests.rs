use aureum::auth::SessionDescriptor;
use aureum::author::{publish_plan, remote_project_plan, CreateRemoteProjectRequest, PublishVersionRequest};
use aureum::catalog::{channel_allows, search_url, versions_url, CatalogFile, CatalogVersion, SearchFilters};
use aureum::drafts::project_from_row;
use aureum::forge::{installer_url, manifest_main_class, processor_command, resolve_data_value, DataValue};
use aureum::install::{
    asset_location, game_versions, keep_existing, maven_loader_versions, pick_loader_version,
    resolve_game_version, verify_sha1, LoaderVersion, ManifestVersion,
};
use aureum::instances::{slugify, Instance};
use aureum::json::Json;
use aureum::launch::{
    collect_args, launch_args, launch_replacements, replace_tokens, rules_allow, split_args, LaunchPaths,
};
use aureum::commands::mrpack_save_path;
use aureum::forge::{loader_version_json, VersionDirScan};
use aureum::launch::version_doc_path;
use aureum::mods::{check_update, list_installed_with_disk, reorder_plan, InstalledMod, ReorderStep};
use aureum::mrpack::{check_index, pack_file_plan, MrpackFile, MrpackIndex};

fn s(x: &str) -> String {
    x.to_string()
}

fn obj(members: Vec<(&str, Json)>) -> Json {
    Json::Object(members.into_iter().map(|(k, v)| (s(k), v)).collect())
}

fn st(x: &str) -> Json {
    Json::Str(s(x))
}

fn inst(loader: &str) -> Instance {
    Instance {
        id: s("i1"),
        name: s("Pack"),
        loader: s(loader),
        game_version: s("1.21.1"),
        loader_version: None,
        game_dir: s("/g"),
        java_path: None,
        memory_mb: 2048,
        jvm_args: Some(s("-XX:+UseG1GC")),
        keep_open: true,
        last_played: None,
        icon: None,
        created_at: String::new(),
        updated_at: String::new(),
    }
}

fn session() -> SessionDescriptor {
    SessionDescriptor {
        profile_id: s("p1"),
        uuid: s("u-1"),
        name: s("Steve"),
        skin_url: None,
        access_token: None,
        user_type: s("legacy"),
        offline: true,
    }
}

fn paths() -> LaunchPaths {
    LaunchPaths {
        game_dir: s("/g"),
        assets_dir: s("/a"),
        natives_dir: s("/n"),
        classpath: s("a.jar:b.jar"),
        launcher_version: s("0.1.0"),
    }
}

fn offered(version: &str, stable: bool) -> LoaderVersion {
    LoaderVersion { loader: s("fabric"), version: s(version), stable }
}

fn installed(pid: &str, vid: &str, filename: &str, order: i64) -> InstalledMod {
    InstalledMod {
        id: s(pid),
        instance_id: s("i1"),
        project_id: s(pid),
        version_id: s(vid),
        filename: s(filename),
        source: s("modrinth"),
        sha512: None,
        sha1: None,
        pinned: false,
        enabled: true,
        channel: None,
        update_version_id: None,
        display_name: None,
        version_number: None,
        sort_order: order,
        compat_status: None,
    }
}

fn cversion(id: &str) -> CatalogVersion {
    CatalogVersion {
        id: s(id),
        project_id: s("P"),
        name: s("n"),
        version_number: s("1"),
        channel: s("release"),
        loaders: vec![],
        game_versions: vec![],
        featured: false,
        files: Vec::<CatalogFile>::new(),
        dependencies: vec![],
        date_published: None,
    }
}

fn windows_rule() -> Json {
    Json::Array(vec![obj(vec![("action", st("allow")), ("os", obj(vec![("name", st("windows"))]))])])
}

#[test]
fn json_lookups() {
    let doc = obj(vec![
        ("a", obj(vec![("b", Json::Array(vec![Json::Number(s("1")), st("x")]))])),
        ("n", Json::Number(s("42"))),
        ("neg", Json::Number(s("-7"))),
        ("t", Json::Bool(true)),
        ("a~b/c", st("escaped")),
    ]);
    assert_eq!(doc.pointer("/a/b/1").unwrap().as_str(), Some("x"));
    assert_eq!(doc.pointer("/a/b/0").unwrap().as_u64(), Some(1));
    assert!(doc.pointer("/a/b/2").is_none());
    assert!(doc.pointer("/a/b/01").is_none());
    assert!(doc.pointer("a").is_none());
    assert_eq!(doc.pointer("/a~0b~1c").unwrap().as_str(), Some("escaped"));
    assert_eq!(doc.get("n").unwrap().as_u64(), Some(42));
    assert_eq!(doc.get("neg").unwrap().as_i64(), Some(-7));
    assert_eq!(doc.get("neg").unwrap().as_u64(), None);
    assert_eq!(doc.get("t").unwrap().as_bool(), Some(true));
    assert!(doc.get("missing").is_none());
    assert!(doc.get("t").unwrap().as_str().is_none());
}

#[test]
fn manifest_versions_and_latest_markers() {
    let manifest = vec![
        ManifestVersion { id: s("24w10a"), version_type: s("snapshot"), url: s("u1"), sha1: None },
        ManifestVersion { id: s("1.21.1"), version_type: s("release"), url: s("u2"), sha1: Some(s("h")) },
    ];
    let vs = game_versions("1.21.1", "", &manifest);
    assert_eq!(vs.len(), 2);
    assert!(!vs[0].latest && !vs[0].latest_snapshot);
    assert!(vs[1].latest && vs[1].latest_snapshot);
    assert_eq!(resolve_game_version("latest", &vs).ok().unwrap(), "1.21.1");
    assert_eq!(resolve_game_version("latest-snapshot", &vs).ok().unwrap(), "1.21.1");
    assert_eq!(resolve_game_version("1.20.4", &vs).ok().unwrap(), "1.20.4");
    let vs2 = game_versions("1.21.1", "24w10a", &manifest);
    assert_eq!(resolve_game_version("latest-snapshot", &vs2).ok().unwrap(), "24w10a");
    let none = game_versions("9.9", "", &manifest);
    assert_eq!(
        resolve_game_version("latest-release", &none).err().unwrap().message,
        "Could not resolve latest release"
    );
    assert_eq!(
        resolve_game_version("latest-snapshot", &none).err().unwrap().message,
        "Could not resolve latest snapshot"
    );
}

#[test]
fn maven_metadata_versions() {
    let xml = "<metadata><versioning><versions><version>1.21.1-52.0.1</version>\
               <version>1.20.1-47.2.0</version><version>1.21.1-52.0.2-beta</version></versions></versioning></metadata>";
    let forge = maven_loader_versions(xml, "forge", Some("1.21.1"));
    assert_eq!(forge.len(), 2);
    assert_eq!(forge[0].version, "1.21.1-52.0.2-beta");
    assert!(!forge[0].stable);
    assert_eq!(forge[1].version, "1.21.1-52.0.1");
    assert!(forge[1].stable);
    assert_eq!(forge[1].loader, "forge");
    let all = maven_loader_versions(xml, "forge", None);
    assert_eq!(all.len(), 3);
    let neo = maven_loader_versions("<version>21.1.66</version><version>21.0.1</version>", "neoforge", Some("1.21.1"));
    assert_eq!(neo.len(), 1);
    assert_eq!(neo[0].version, "21.1.66");
}

#[test]
fn loader_version_choice() {
    let list = vec![offered("0.16.0-beta", false), offered("0.15.11", true), offered("0.15.10", true)];
    assert_eq!(pick_loader_version(&None, &list).ok().unwrap(), "0.15.11");
    assert_eq!(pick_loader_version(&Some(s("0.14.0")), &list).ok().unwrap(), "0.14.0");
    assert_eq!(pick_loader_version(&Some(s("")), &list).ok().unwrap(), "0.15.11");
    let unstable = vec![offered("0.16.0-beta", false)];
    assert_eq!(pick_loader_version(&None, &unstable).ok().unwrap(), "0.16.0-beta");
    assert_eq!(
        pick_loader_version(&None, &vec![]).err().unwrap().message,
        "No loader versions published for this game version"
    );
}

#[test]
fn downloads_are_checked_and_placed() {
    let sha1_abc = "a9993e364706816aba3e25717850c26c9cd0d89d";
    assert!(verify_sha1("/x/f.jar", b"abc", sha1_abc).is_ok());
    assert!(verify_sha1("/x/f.jar", b"abc", &sha1_abc.to_uppercase()).is_ok());
    assert_eq!(
        verify_sha1("/x/f.jar", b"abc", "00").err().unwrap().message,
        format!("SHA1 mismatch for /x/f.jar: expected 00, got {sha1_abc}")
    );
    assert!(keep_existing(true, false, true, false));
    assert!(!keep_existing(true, true, true, false));
    assert!(keep_existing(false, false, false, false));
    let (dest, url) = asset_location("/o", "abcdef").unwrap();
    assert_eq!(dest, "/o/ab/abcdef");
    assert_eq!(url, "https://resources.download.minecraft.net/ab/abcdef");
    assert!(asset_location("/o", "a").is_none());
}

#[test]
fn launch_argument_building() {
    assert_eq!(split_args("-Xss1M \"-Dname=a b\"  -Dx"), vec!["-Xss1M", "-Dname=a b", "-Dx"]);
    let reps = vec![(s("${a}"), s("1")), (s("${b}"), s("${a}"))];
    assert_eq!(replace_tokens("${b}-${a}", &reps), "${a}-1");
    let windows_only = windows_rule();
    assert!(rules_allow(Some(&windows_only), "windows"));
    assert!(!rules_allow(Some(&windows_only), "linux"));
    assert!(rules_allow(None, "linux"));
    let arguments = obj(vec![(
        "game",
        Json::Array(vec![
            st("--username"),
            st("${auth_player_name}"),
            obj(vec![("rules", windows_rule()), ("value", st("--win"))]),
            obj(vec![
                ("rules", Json::Array(vec![obj(vec![("action", st("allow"))])])),
                ("value", Json::Array(vec![st("--w"), st("${version_name}")])),
            ]),
        ]),
    )]);
    let vanilla = obj(vec![("assetIndex", obj(vec![("id", st("17"))])), ("type", st("release"))]);
    let reps = launch_replacements(&session(), "1.21.1", &paths(), &vanilla);
    assert_eq!(reps.len(), 18);
    assert_eq!(reps[5], (s("${assets_index_name}"), s("17")));
    assert_eq!(reps[7], (s("${auth_access_token}"), s("0")));
    let game = collect_args(Some(&arguments), "game", &reps, "linux");
    assert_eq!(game, vec!["--username", "Steve", "--w", "1.21.1"]);
}

#[test]
fn launch_command_line() {
    let vanilla = obj(vec![
        ("mainClass", st("net.minecraft.client.main.Main")),
        ("minecraftArguments", st("--username ${auth_player_name} --version ${version_name}")),
    ]);
    let args = launch_args(&inst("vanilla"), &session(), "1.8.9", &vanilla, &vanilla, &paths(), Some("-Dextra=1"), "linux")
        .ok()
        .unwrap();
    assert_eq!(
        args,
        vec![
            "-Xms1024M",
            "-Xmx2048M",
            "-Djava.library.path=/n",
            "-Dextra=1",
            "-XX:+UseG1GC",
            "-cp",
            "a.jar:b.jar",
            "net.minecraft.client.main.Main",
            "--username",
            "Steve",
            "--version",
            "1.8.9",
        ]
    );
    let bare = obj(vec![]);
    let fallback = launch_args(&inst("vanilla"), &session(), "x", &bare, &vanilla, &paths(), None, "linux").ok().unwrap();
    assert_eq!(fallback[fallback.len() - 1], "x");
    assert!(launch_args(&inst("vanilla"), &session(), "x", &bare, &bare, &paths(), None, "linux").is_err());
}

#[test]
fn forge_installer_steps() {
    assert_eq!(
        installer_url("forge", "1.21.1-52.0.1").ok().unwrap(),
        "https://maven.minecraftforge.net/net/minecraftforge/forge/1.21.1-52.0.1/forge-1.21.1-52.0.1-installer.jar"
    );
    assert_eq!(
        installer_url("neoforge", "21.1.66").ok().unwrap(),
        "https://maven.neoforged.net/releases/net/neoforged/neoforge/21.1.66/neoforge-21.1.66-installer.jar"
    );
    assert_eq!(installer_url("fabric", "1").err().unwrap().message, "Not a Forge-family loader: fabric");
    assert_eq!(
        manifest_main_class("Manifest-Version: 1.0\nMain-Class: net.minecraftforge.Inst\n alled\n"),
        Some(s("net.minecraftforge.Installed"))
    );
    assert_eq!(manifest_main_class("Manifest-Version: 1.0\n"), None);
    match resolve_data_value(" 'text' ", "/lib", "/w") {
        DataValue::Ready(v) => assert_eq!(v, "text"),
        _ => panic!("quoted data is ready"),
    }
    match resolve_data_value("/data/client.lzma", "/lib", "/w") {
        DataValue::Extract { rel, dest } => {
            assert_eq!(rel, "data/client.lzma");
            assert_eq!(dest, "/w/data/client.lzma");
        }
        _ => panic!("a slash path is extracted"),
    }
    match resolve_data_value("[net.foo:bar:1.0]", "/lib", "/w") {
        DataValue::Ready(v) => assert_eq!(v, "/lib/net/foo/bar/1.0/bar-1.0.jar"),
        _ => panic!("a coordinate is ready"),
    }
    let proc = obj(vec![
        ("jar", st("net.foo:tool:2.0")),
        ("classpath", Json::Array(vec![st("net.foo:dep:1.0")])),
        ("args", Json::Array(vec![st("--side"), st("{SIDE}")])),
    ]);
    let data = vec![(s("SIDE"), s("client"))];
    let cmd = processor_command(&proc, &data, "/lib").ok().unwrap();
    assert_eq!(cmd.jar, "/lib/net/foo/tool/2.0/tool-2.0.jar");
    assert_eq!(cmd.classpath, vec!["/lib/net/foo/dep/1.0/dep-1.0.jar"]);
    assert_eq!(cmd.args, vec!["--side", "client"]);
    assert_eq!(
        processor_command(&obj(vec![]), &data, "/lib").err().unwrap().message,
        "Processor is missing jar"
    );
}

#[test]
fn catalog_requests() {
    assert!(channel_allows("stable", "release"));
    assert!(!channel_allows("stable", "beta"));
    assert!(channel_allows("beta", "beta"));
    assert!(!channel_allows("beta", "alpha"));
    assert!(channel_allows("all", "alpha"));
    let filters = SearchFilters {
        query: Some(s("sodium mod")),
        source: None,
        loaders: Some(vec![s("fabric"), s("vanilla")]),
        game_versions: Some(vec![s("1.21.1")]),
        project_types: None,
        categories: None,
        index: Some(s("downloads")),
        offset: None,
        limit: Some(500),
        channel: None,
    };
    let (url, offset) = search_url(&filters).ok().unwrap();
    assert_eq!(offset, 0);
    assert_eq!(
        url,
        "https://api.modrinth.com/v2/search?query=sodium%20mod&limit=100&offset=0&index=downloads&facets=\
         %5B%5B%22project_type%3Amod%22%5D%2C%5B%22categories%3Afabric%22%5D%2C%5B%22versions%3A1.21.1%22%5D%5D"
    );
    let other = SearchFilters { source: Some(s("curseforge")), ..filters };
    assert!(search_url(&other).is_err());
    assert_eq!(
        versions_url("sodium", &vec![s("fabric")], &vec![]).ok().unwrap(),
        "https://api.modrinth.com/v2/project/sodium/version?loaders=%5B%22fabric%22%5D"
    );
    assert_eq!(
        versions_url("sodium", &vec![], &vec![]).ok().unwrap(),
        "https://api.modrinth.com/v2/project/sodium/version"
    );
}

#[test]
fn modpack_files() {
    let index = MrpackIndex {
        format_version: 2,
        game: s("minecraft"),
        version_id: s("1"),
        name: s("P"),
        summary: None,
        files: vec![],
        dependencies: vec![],
    };
    assert_eq!(check_index(&index).err().unwrap().message, "Unsupported mrpack formatVersion 2 (expected 1)");
    let index = MrpackIndex { format_version: 1, game: s("terraria"), ..index };
    assert_eq!(check_index(&index).err().unwrap().message, "Unsupported mrpack game 'terraria'");
    let index = MrpackIndex { game: s("minecraft"), ..index };
    assert!(check_index(&index).is_ok());
    let file = MrpackFile {
        path: s("mods/sodium.jar"),
        hashes: vec![(s("sha1"), s("aa"))],
        downloads: vec![s("ftp://x"), s("https://cdn/sodium.jar")],
        file_size: 3,
        env: None,
    };
    let plan = pack_file_plan(&file, "/g", "/c").ok().unwrap().unwrap();
    assert_eq!(plan.rel, "mods/sodium.jar");
    assert_eq!(plan.dest, "/g/mods/sodium.jar");
    assert_eq!(plan.url, "https://cdn/sodium.jar");
    assert_eq!(plan.sha1, Some(s("aa")));
    assert!(plan.is_mod);
    assert_eq!(plan.project_id, "mrpack:mods/sodium.jar");
    assert_eq!(plan.mod_display, "sodium");
    let unsafe_file = MrpackFile { path: s("../x.jar"), ..file };
    assert!(pack_file_plan(&unsafe_file, "/g", "/c").is_err());
}

#[test]
fn disk_listing_and_update_checks() {
    let listed = vec![installed("b", "v1", "b.jar", 1), installed("a", "v1", "a.jar", 0)];
    let names = vec![s("a.jar.disabled"), s("c.jar"), s("notes.txt")];
    let merged = list_installed_with_disk(listed, &names, &inst("fabric"));
    assert_eq!(merged.len(), 3);
    assert_eq!(merged[0].filename, "a.jar");
    assert!(!merged[0].enabled);
    assert_eq!(merged[1].filename, "b.jar");
    assert_eq!(merged[2].filename, "c.jar");
    assert_eq!(merged[2].source, "local");
    assert_eq!(merged[2].sort_order, 2);
    let mut m = installed("a", "v1", "a.jar", 0);
    check_update(&mut m, "fabric", &vec![cversion("v2"), cversion("v1")]);
    assert_eq!(m.compat_status, Some(s("update")));
    assert_eq!(m.update_version_id, Some(s("v2")));
    let mut m = installed("a", "v1", "a.jar", 0);
    check_update(&mut m, "fabric", &vec![cversion("v1")]);
    assert_eq!(m.compat_status, Some(s("ok")));
    let mut m = installed("a", "v1", "a.jar", 0);
    check_update(&mut m, "vanilla", &vec![cversion("v1")]);
    assert_eq!(m.compat_status, Some(s("incompatible")));
    let mut m = installed("a", "v1", "a.jar", 0);
    m.pinned = true;
    check_update(&mut m, "fabric", &vec![cversion("v2")]);
    assert_eq!(m.compat_status, Some(s("pinned")));
}

#[test]
fn publishing_plans() {
    let draft = project_from_row(
        s("d1"), s(" Title "), Some(s(" my-mod ")), s(" A summary "), s("  "), s("shader"), s("draft"), None, None,
        s("t"), s("t"),
    );
    let req = CreateRemoteProjectRequest {
        draft_id: s("d1"),
        categories: None,
        client_side: None,
        server_side: Some(s("optional")),
        license_id: None,
    };
    let plan = remote_project_plan(&draft, &req).ok().unwrap();
    assert_eq!(plan.slug, "my-mod");
    assert_eq!(plan.title, "Title");
    assert_eq!(plan.body, "A summary");
    assert_eq!(plan.categories, vec!["realistic"]);
    assert_eq!(plan.client_side, "required");
    assert_eq!(plan.server_side, "optional");
    assert_eq!(plan.license_id, "LicenseRef-Unknown");
    let linked = project_from_row(
        s("d1"), s("T"), Some(s("slug")), s("summary"), s(""), s("mod"), s("draft"), Some(s("abc")), None, s("t"),
        s("t"),
    );
    assert_eq!(
        remote_project_plan(&linked, &req).err().unwrap().message,
        "Draft is already linked to a Modrinth project. Unlink first or publish a version."
    );
    let pub_req = PublishVersionRequest {
        project_id: s("abc"),
        draft_id: None,
        name: s("  "),
        version_number: s(" 1.0.0 "),
        changelog: None,
        game_versions: vec![s("1.21.1")],
        loaders: vec![],
        version_type: None,
        featured: None,
        file_path: s("/x/mod.jar"),
    };
    let plan = publish_plan(&pub_req, 10).ok().unwrap();
    assert_eq!(plan.name, "1.0.0");
    assert_eq!(plan.version_number, "1.0.0");
    assert_eq!(plan.version_type, "release");
    assert_eq!(plan.loaders, vec!["minecraft"]);
    assert_eq!(publish_plan(&pub_req, 0).err().unwrap().message, "Publish file is empty");
    let no_games = PublishVersionRequest { game_versions: vec![], ..pub_req };
    assert_eq!(publish_plan(&no_games, 10).err().unwrap().message, "At least one game version is required");
}

#[test]
fn reorder_steps_follow_the_requested_order() {
    let mut local = installed("local:extra.jar", "", "extra.jar", 5);
    local.enabled = false;
    local.display_name = Some(s("extra"));
    let current = vec![installed("a", "v1", "a.jar", 0), local];
    let ids = vec![s("local:extra.jar"), s("a"), s("local:gone.jar"), s("b")];
    let steps = reorder_plan(&current, &ids);
    assert_eq!(steps.len(), 3);
    match &steps[0] {
        ReorderStep::Local { project_id, filename, enabled, display_name, order } => {
            assert_eq!(project_id, "local:extra.jar");
            assert_eq!(filename, "extra.jar");
            assert!(!*enabled);
            assert_eq!(display_name.as_deref(), Some("extra"));
            assert_eq!(*order, 0);
        }
        _ => panic!("a listed local jar keeps its row data"),
    }
    match &steps[1] {
        ReorderStep::Order { project_id, order } => {
            assert_eq!(project_id, "a");
            assert_eq!(*order, 1);
        }
        _ => panic!("a recorded project is re-ordered"),
    }
    match &steps[2] {
        ReorderStep::Order { project_id, order } => {
            assert_eq!(project_id, "b");
            assert_eq!(*order, 3);
        }
        _ => panic!("positions count skipped local jars"),
    }
}

#[test]
fn version_documents_and_pack_names() {
    assert_eq!(
        version_doc_path("/g", "fabric-loader-0.16-1.21.1", "1.21.1", true, true).ok().unwrap(),
        "/g/versions/fabric-loader-0.16-1.21.1/fabric-loader-0.16-1.21.1.json"
    );
    assert_eq!(version_doc_path("/g", "x", "1.21.1", false, true).ok().unwrap(), "/g/versions/1.21.1/1.21.1.json");
    assert_eq!(
        version_doc_path("/g", "x", "1.21.1", false, false).err().unwrap().message,
        "Instance is not installed yet. Use Install first."
    );
    let dirs = vec![
        VersionDirScan { name: s("1.21.1"), has_json: true },
        VersionDirScan { name: s("empty"), has_json: false },
        VersionDirScan { name: s("neoforge-21.1.66"), has_json: true },
    ];
    assert_eq!(
        loader_version_json("/g", "1.21.1", &dirs).ok().unwrap(),
        "/g/versions/neoforge-21.1.66/neoforge-21.1.66.json"
    );
    let only_vanilla = vec![VersionDirScan { name: s("1.21.1"), has_json: true }, VersionDirScan { name: s("empty"), has_json: false }];
    assert_eq!(
        loader_version_json("/g", "1.21.1", &only_vanilla).err().unwrap().message,
        "Installer did not write a loader version profile"
    );
    assert_eq!(mrpack_save_path("/x/pack"), "/x/pack.mrpack");
    assert_eq!(mrpack_save_path("/x/Pack.MRPACK"), "/x/Pack.MRPACK");
}

#[test]
fn slugs_are_folder_safe() {
    assert_eq!(slugify("  --Hello__World!! "), "hello-world");
    assert_eq!(slugify("Ünïcode"), "n-code");
    assert_eq!(slugify("---"), "instance");
    for name in ["A b", "x/y\\z", "..", "Ωmega 2"] {
        let slug = slugify(name);
        assert!(!slug.is_empty());
        assert!(slug.chars().all(|c| c == '-' || c.is_ascii_digit() || c.is_ascii_lowercase()));
        assert!(!slug.starts_with('-') && !slug.ends_with('-'));
    }
}
