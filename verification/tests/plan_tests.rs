use aureum::catalog::versions_url;
use aureum::forge::subst;
use aureum::instances::{row_to_instance, Instance};
use aureum::launch::launch_paths;
use aureum::mrpack::{pack_file_plan, pack_plans, MrpackEnv, MrpackFile};

fn s(x: &str) -> String {
    x.to_string()
}

fn file(path: &str, hashes: Vec<(&str, &str)>, downloads: Vec<&str>) -> MrpackFile {
    MrpackFile {
        path: s(path),
        hashes: hashes.into_iter().map(|(k, v)| (s(k), s(v))).collect(),
        downloads: downloads.into_iter().map(s).collect(),
        file_size: 1,
        env: None,
    }
}

fn client_only(mut f: MrpackFile, client: &str) -> MrpackFile {
    f.env = Some(MrpackEnv { client: s(client), server: s("required") });
    f
}

fn inst(game_dir: &str) -> Instance {
    row_to_instance(
        s("0123456789"), s("Pack"), s("fabric"), s("1.21.1"), None, s(game_dir), None, 2048, None, 1, None, None,
        s("t0"), s("t0"),
    )
}

#[test]
fn pack_plan_takes_the_first_web_address() {
    let f = file(
        "mods/a.jar",
        vec![("sha1", "11")],
        vec!["ftp://x/a.jar", "https://one/a.jar", "http://two/a.jar"],
    );
    let plan = pack_file_plan(&f, "/g", "/c").ok().unwrap().unwrap();
    assert_eq!(plan.url, "https://one/a.jar");
    assert_eq!(plan.cached, "/c/mrpack/11/a.jar");
}

#[test]
fn pack_plan_caches_under_the_first_64_characters_of_sha512() {
    let long = "ab".repeat(64);
    let f = file("config/x.toml", vec![("sha1", "11"), ("sha512", long.as_str())], vec!["https://cdn/x.toml"]);
    let plan = pack_file_plan(&f, "/g", "/c").ok().unwrap().unwrap();
    assert_eq!(plan.cached, format!("/c/mrpack/{}/x.toml", &long[..64]));
    assert_eq!(plan.dest, "/g/config/x.toml");
    assert!(!plan.is_mod);
    assert_eq!(plan.sha512, Some(long.clone()));
}

#[test]
fn pack_plan_refusals() {
    let f = file("mods/a.jar", vec![("md5", "00")], vec!["https://cdn/a.jar"]);
    assert_eq!(pack_file_plan(&f, "/g", "/c").err().unwrap().message, "Pack file mods/a.jar is missing sha1/sha512");
    let f = file("mods/a.jar", vec![("sha1", "11")], vec!["ftp://cdn/a.jar"]);
    assert_eq!(pack_file_plan(&f, "/g", "/c").err().unwrap().message, "No download URL for mods/a.jar");
    let f = client_only(file("mods/a.jar", vec![], vec![]), "UNSUPPORTED");
    assert!(pack_file_plan(&f, "/g", "/c").ok().unwrap().is_none());
}

#[test]
fn pack_plans_count_the_client_files() {
    let files = vec![
        file("mods/a.jar", vec![("sha1", "11")], vec!["https://cdn/a.jar"]),
        client_only(file("mods/server.jar", vec![], vec![]), "unsupported"),
        client_only(file("mods/b.jar", vec![("sha1", "22")], vec!["https://cdn/b.jar"]), "optional"),
    ];
    let plans = pack_plans(&files, "/g", "/c").ok().unwrap();
    assert_eq!(plans.len(), 2);
    assert_eq!(plans[0].rel, "mods/a.jar");
    assert_eq!(plans[1].rel, "mods/b.jar");
    let files = vec![
        file("mods/a.jar", vec![("sha1", "11")], vec!["https://cdn/a.jar"]),
        file("mods/c.jar", vec![("sha1", "33")], vec![]),
        file("../evil.jar", vec![("sha1", "44")], vec!["https://cdn/e.jar"]),
    ];
    assert_eq!(pack_plans(&files, "/g", "/c").err().unwrap().message, "No download URL for mods/c.jar");
}

#[test]
fn launch_folders_come_from_the_game_and_cache_folders() {
    let p = launch_paths(&inst("/g"), "/c", s("a.jar:b.jar"), "0.1.0");
    assert_eq!(p.game_dir, "/g");
    assert_eq!(p.natives_dir, "/g/natives");
    assert_eq!(p.assets_dir, "/c/assets");
    assert_eq!(p.classpath, "a.jar:b.jar");
    assert_eq!(p.launcher_version, "0.1.0");
    let p = launch_paths(&inst("/g/"), "/c/", s(""), "1");
    assert_eq!(p.natives_dir, "/g/natives");
    assert_eq!(p.assets_dir, "/c/assets");
}

#[test]
fn coordinates_resolve_under_a_folder_with_one_kind_of_bracket() {
    let data = vec![(s("SIDE"), s("client"))];
    assert_eq!(
        subst("{SIDE} [a:b:1] [c:d:2]", &data, "li]b"),
        "client li]b/a/b/1/b-1.jar li]b/c/d/2/d-2.jar"
    );
    assert_eq!(subst("[a:b:1]", &data, "l[b"), "l[b/a/b/1/b-1.jar");
}

#[test]
fn request_filters_are_written_as_escaped_json() {
    let loaders = vec![s("a\"b"), s("c\\d"), s("e\nf"), s("g\u{1}")];
    assert_eq!(
        versions_url("x", &loaders, &vec![]).ok().unwrap(),
        "https://api.modrinth.com/v2/project/x/version?loaders=\
         %5B%22a%5C%22b%22%2C%22c%5C%5Cd%22%2C%22e%5Cnf%22%2C%22g%5Cu0001%22%5D"
    );
}
