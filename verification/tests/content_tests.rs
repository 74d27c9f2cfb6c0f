use aureum::catalog::{CatalogFile, CatalogVersion, ProjectDetail};
use aureum::content::{
    check_content_type, content_fetch_plan, forget_content, list_content, pick_content_version,
    record_check, remove_content, update_query, update_request, version_filters, ContentScan,
    InstalledContent,
};
use aureum::instances::Instance;
use aureum::resolve::{Lockfile, LockfileEntry};

fn inst(loader: &str) -> Instance {
    Instance {
        id: "i1".into(),
        name: "t".into(),
        loader: loader.into(),
        game_version: "1.21.1".into(),
        loader_version: None,
        game_dir: "/g".into(),
        java_path: None,
        memory_mb: 2048,
        jvm_args: None,
        keep_open: true,
        last_played: None,
        icon: None,
        created_at: String::new(),
        updated_at: String::new(),
    }
}

fn scan(folder: &str, name: &str, is_dir: bool) -> ContentScan {
    ContentScan { folder: folder.into(), name: name.into(), is_dir, is_file: !is_dir }
}

fn entry(path: &str, filename: Option<&str>, pid: &str) -> LockfileEntry {
    LockfileEntry {
        path: path.into(),
        sha1: Some("s1".into()),
        sha512: None,
        source: "modrinth".into(),
        project_id: Some(pid.into()),
        version_id: Some("v1".into()),
        filename: filename.map(|s| s.to_string()),
        pinned: false,
        enabled: true,
    }
}

fn file(name: &str, primary: bool, sha1: Option<&str>, sha512: Option<&str>) -> CatalogFile {
    CatalogFile {
        url: format!("https://cdn/{name}"),
        filename: name.into(),
        primary,
        sha1: sha1.map(|s| s.to_string()),
        sha512: sha512.map(|s| s.to_string()),
        size: 10,
    }
}

fn version(id: &str, files: Vec<CatalogFile>) -> CatalogVersion {
    CatalogVersion {
        id: id.into(),
        project_id: "P".into(),
        name: "n".into(),
        version_number: "1".into(),
        channel: "release".into(),
        loaders: vec![],
        game_versions: vec![],
        featured: false,
        files,
        dependencies: vec![],
        date_published: None,
    }
}

fn detail(title: &str, project_type: &str) -> ProjectDetail {
    ProjectDetail {
        id: "P".into(),
        slug: "p".into(),
        title: title.into(),
        description: String::new(),
        body: None,
        source: "modrinth".into(),
        icon_url: None,
        loaders: vec![],
        game_versions: vec![],
        license: None,
        project_url: String::new(),
        project_type: project_type.into(),
        categories: vec![],
        gallery: vec![],
        members: vec![],
        downloads: 0,
        followers: 0,
        published: None,
        updated: None,
        source_url: None,
        issues_url: None,
        wiki_url: None,
        discord_url: None,
        donation_urls: vec![],
    }
}

fn item(project_type: &str, source: &str, pid: Option<&str>, vid: Option<&str>) -> InstalledContent {
    InstalledContent {
        id: "resourcepacks:a.zip".into(),
        instance_id: "i1".into(),
        project_type: project_type.into(),
        filename: "a.zip".into(),
        path: "/g/resourcepacks/a.zip".into(),
        source: source.into(),
        project_id: pid.map(|s| s.to_string()),
        version_id: vid.map(|s| s.to_string()),
        sha1: None,
        sha512: None,
        kind: "file".into(),
        update_version_id: None,
        compat_status: None,
    }
}

#[test]
fn lists_and_removes_content() {
    let instance = inst("fabric");
    let lock = Lockfile::empty("i1");
    let scans = vec![scan("resourcepacks", "pack.zip", false), scan("shaderpacks", "fancy", true)];
    let listed = list_content(&instance, &lock, &scans);
    assert_eq!(listed.len(), 2);
    let (folder, name) = remove_content("resourcepacks:pack.zip").ok().unwrap();
    assert_eq!(folder, "resourcepacks");
    assert_eq!(name, "pack.zip");
    let scans = vec![scan("shaderpacks", "fancy", true)];
    let listed = list_content(&instance, &lock, &scans);
    assert_eq!(listed.len(), 1);
    assert_eq!(listed[0].filename, "fancy");
}

#[test]
fn listing_filters_matches_lock_and_sorts() {
    let instance = inst("fabric");
    let mut lock = Lockfile::empty("i1");
    lock.files.push(entry("C:\\other\\resourcepacks\\pack.zip", None, "P"));
    let scans = vec![
        scan("resourcepacks", "pack.zip", false),
        scan("shaderpacks", "fancy", true),
        scan("resourcepacks", ".hidden.zip", false),
        scan("datapacks", "notes.txt", false),
        scan("resourcepacks", "B.ZIP", false),
        ContentScan { folder: "resourcepacks".into(), name: "odd.zip".into(), is_dir: false, is_file: false },
    ];
    let listed = list_content(&instance, &lock, &scans);
    let names: Vec<&str> = listed.iter().map(|c| c.filename.as_str()).collect();
    assert_eq!(names, vec!["B.ZIP", "pack.zip", "fancy"]);
    let pack = &listed[1];
    assert_eq!(pack.id, "resourcepacks:pack.zip");
    assert_eq!(pack.path, "/g/resourcepacks/pack.zip");
    assert_eq!(pack.source, "modrinth");
    assert_eq!(pack.project_id.as_deref(), Some("P"));
    assert_eq!(pack.kind, "file");
    assert_eq!(listed[0].source, "local");
    assert_eq!(listed[0].project_id, None);
    assert_eq!(listed[2].project_type, "shader");
    assert_eq!(listed[2].kind, "dir");
}

#[test]
fn removal_refusals() {
    let msg = |id: &str| remove_content(id).err().unwrap().message;
    assert_eq!(msg("nocolon"), "Invalid content id");
    assert_eq!(msg("mods:x.jar"), "Unknown content folder");
    assert_eq!(msg("resourcepacks:"), "Unsafe content name");
    assert_eq!(msg("resourcepacks:../x.zip"), "Unsafe content name");
    assert_eq!(msg("resourcepacks:a/b.zip"), "Unsafe content name");
    assert_eq!(msg("resourcepacks:a\\b.zip"), "Unsafe content name");
}

#[test]
fn listed_id_designates_entry_for_removal() {
    let id = format!("{}:{}", "datapacks", "my:pack.zip");
    let (folder, name) = remove_content(&id).ok().unwrap();
    assert_eq!(folder, "datapacks");
    assert_eq!(name, "my:pack.zip");
}

#[test]
fn removal_forgets_lock_entries() {
    let mut lock = Lockfile::empty("i1");
    lock.files.push(entry("/g\\resourcepacks\\pack.zip", None, "A"));
    lock.files.push(entry("/elsewhere/x.zip", Some("pack.zip"), "B"));
    lock.files.push(entry("/g/mods/sodium.jar", Some("sodium.jar"), "C"));
    forget_content(&mut lock, "/g", "resourcepacks", "pack.zip");
    assert_eq!(lock.files.len(), 1);
    assert_eq!(lock.files[0].project_id.as_deref(), Some("C"));
    assert_eq!(lock.instance_id, "i1");
}

#[test]
fn refuses_mods_as_content() {
    let e = check_content_type(&detail("Sodium", "mod"), "resourcepack", "resourcepacks").err().unwrap();
    assert_eq!(e.message, "'Sodium' is a mod, not a resourcepack");
    assert!(check_content_type(&detail("Pack", "resourcepack"), "resourcepack", "resourcepacks").is_ok());
    assert!(check_content_type(&detail("Shader", "shader"), "shader", "shaderpacks").is_ok());
    assert!(check_content_type(&detail("Odd", "other"), "resourcepack", "resourcepacks").is_ok());
}

#[test]
fn no_version_messages() {
    let e = pick_content_version(vec![], "resourcepacks", &inst("fabric")).err().unwrap();
    assert_eq!(e.message, "No resourcepack versions published on Modrinth");
    let e = pick_content_version(vec![], "datapacks", &inst("fabric")).err().unwrap();
    assert_eq!(e.message, "No matching datapack version for fabric 1.21.1");
    let v = pick_content_version(vec![version("v2", vec![]), version("v1", vec![])], "datapacks", &inst("fabric"));
    assert_eq!(v.ok().unwrap().id, "v2");
}

#[test]
fn version_filters_follow_the_folder() {
    let (l, g) = version_filters(false, &inst("fabric"));
    assert_eq!(l, vec!["fabric".to_string()]);
    assert_eq!(g, vec!["1.21.1".to_string()]);
    let (l, g) = version_filters(false, &inst("vanilla"));
    assert!(l.is_empty());
    assert_eq!(g, vec!["1.21.1".to_string()]);
    let (l, g) = version_filters(true, &inst("fabric"));
    assert!(l.is_empty() && g.is_empty());
}

#[test]
fn fetch_plan_uses_primary_file_and_cache_key() {
    let v = version("v9", vec![file("a.zip", false, Some("aa"), None), file("b.zip", true, Some("bb"), Some("cc"))]);
    let f = content_fetch_plan(&v, "resourcepacks", "P", "/cache", "/g").ok().unwrap();
    assert_eq!(f.url, "https://cdn/b.zip");
    assert_eq!(f.cached, "/cache/content/resourcepacks/cc/b.zip");
    assert_eq!(f.dest_dir, "/g/resourcepacks");
    assert_eq!(f.dest, "/g/resourcepacks/b.zip");
    assert_eq!(f.lock.path, f.dest);
    assert_eq!(f.lock.source, "modrinth");
    assert_eq!(f.lock.version_id.as_deref(), Some("v9"));
    assert_eq!(f.lock.filename.as_deref(), Some("b.zip"));
    assert!(!f.lock.pinned && f.lock.enabled);
    assert_eq!(f.result.project_type, "resourcepack");
    let v = version("v3", vec![file("a.zip", false, None, None)]);
    let f = content_fetch_plan(&v, "datapacks", "P", "/cache", "/g").ok().unwrap();
    assert_eq!(f.cached, "/cache/content/datapacks/v3/a.zip");
    let e = content_fetch_plan(&version("v", vec![]), "datapacks", "P", "/c", "/g").err().unwrap();
    assert_eq!(e.message, "Version has no downloadable files");
}

#[test]
fn update_checks() {
    let mut local = item("resourcepack", "local", None, None);
    record_check(&mut local, &vec![]);
    assert_eq!(local.compat_status.as_deref(), Some("local"));
    assert!(update_query(&local, &inst("fabric")).is_none());

    let mut dp = item("datapack", "modrinth", Some("P"), Some("v1"));
    let (pid, loaders, games) = update_query(&dp, &inst("fabric")).unwrap();
    assert_eq!(pid, "P");
    assert_eq!(loaders, vec!["fabric".to_string()]);
    assert_eq!(games, vec!["1.21.1".to_string()]);
    record_check(&mut dp, &vec![]);
    assert_eq!(dp.compat_status.as_deref(), Some("incompatible"));

    let mut sh = item("shader", "modrinth", Some("P"), Some("v1"));
    record_check(&mut sh, &vec![]);
    assert_eq!(sh.compat_status.as_deref(), Some("ok"));

    let mut newer = item("resourcepack", "modrinth", Some("P"), Some("v1"));
    record_check(&mut newer, &vec![version("v2", vec![])]);
    assert_eq!(newer.compat_status.as_deref(), Some("update"));
    assert_eq!(newer.update_version_id.as_deref(), Some("v2"));

    let mut same = item("resourcepack", "modrinth", Some("P"), Some("v2"));
    record_check(&mut same, &vec![version("v2", vec![])]);
    assert_eq!(same.compat_status.as_deref(), Some("ok"));
    assert_eq!(same.update_version_id, None);
}

#[test]
fn update_requests() {
    let i = inst("fabric");
    let msg = |l: &Vec<InstalledContent>| update_request(l, "resourcepacks:a.zip", &i).err().unwrap().message;
    assert_eq!(msg(&vec![]), "Content not found");
    assert_eq!(msg(&vec![item("resourcepack", "local", None, None)]), "Local content has no Modrinth project id");
    assert_eq!(
        msg(&vec![item("resourcepack", "modrinth", Some("P"), Some("v1"))]),
        "No update available — run Check updates first"
    );
    let mut it = item("resourcepack", "modrinth", Some("P"), Some("v1"));
    it.update_version_id = Some("v2".into());
    let q = update_request(&vec![it], "resourcepacks:a.zip", &i).ok().unwrap();
    assert_eq!(q.instance_id, "i1");
    assert_eq!(q.project_id, "P");
    assert_eq!(q.version_id.as_deref(), Some("v2"));
    assert_eq!(q.project_type, "resourcepack");
    assert_eq!(q.channel.as_deref(), Some("stable"));
}
