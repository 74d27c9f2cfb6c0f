use aureum::content::content_dir;
use aureum::forge::subst;
use aureum::install::{neoforge_matches, resolve_library_url};
use aureum::instances::slugify;
use aureum::json::Json;
use aureum::maven::maven_rel_path;
use aureum::media::safe_filename as media_safe;
use aureum::mrpack::safe_rel_path;
use aureum::resolve::{resolve, DepKind, DepRef, Package, Selection};

fn pkg(id: &str, ver: &str, deps: Vec<DepRef>) -> Package {
    Package {
        project_id: id.to_string(),
        version_id: ver.to_string(),
        name: id.to_string(),
        deps,
    }
}

fn req(id: &str, ver: Option<&str>) -> DepRef {
    DepRef {
        project_id: id.to_string(),
        version_id: ver.map(|s| s.to_string()),
        kind: DepKind::Required,
    }
}

fn pair(a: &str, b: &str) -> (String, String) {
    (a.to_string(), b.to_string())
}

fn selected(result: &[(String, String)], id: &str) -> Option<String> {
    result.iter().find(|(p, _)| p == id).map(|(_, v)| v.clone())
}

#[test]
fn maps_folders() {
    assert_eq!(content_dir("resourcepack").ok().unwrap(), "resourcepacks");
    assert_eq!(content_dir("shader").ok().unwrap(), "shaderpacks");
    assert_eq!(content_dir("datapack").ok().unwrap(), "datapacks");
    assert!(content_dir("mod").is_err());
}

#[test]
fn substitutes_tokens_and_coords() {
    let data = vec![pair("SIDE", "client")];
    let out = subst("{SIDE} [net.foo:bar:1.0]", &data, "libs");
    let normalized = out.replace('\\', "/");
    assert!(normalized.starts_with("client "));
    assert!(normalized.contains("net/foo/bar/1.0/bar-1.0.jar"));
}

#[test]
fn maven_ext() {
    let p = maven_rel_path("net.minecraft:client:1.21.1:mappings@txt");
    assert_eq!(p, "net/minecraft/client/1.21.1/client-1.21.1-mappings.txt");
}

#[test]
fn neoforge_filter() {
    assert!(neoforge_matches("21.1.66", "1.21.1"));
    assert!(!neoforge_matches("21.0.1", "1.21.1"));
}

#[test]
fn resolves_forge_maven_host() {
    let lib = Json::Object(vec![(
        "name".to_string(),
        Json::Str("net.minecraftforge:forge:1.21.1-52.1.0:client".to_string()),
    )]);
    let url = resolve_library_url(
        &lib,
        Some(""),
        "net/minecraftforge/forge/1.21.1-52.1.0/forge-1.21.1-52.1.0-client.jar",
    )
    .unwrap();
    assert!(url.starts_with("https://maven.minecraftforge.net/"));
    assert!(url.ends_with("forge-1.21.1-52.1.0-client.jar"));
}

#[test]
fn slugifies_names() {
    assert_eq!(slugify("Vanilla 1.21"), "vanilla-1-21");
    assert_eq!(slugify("@@@"), "instance");
}

#[test]
fn rejects_traversal() {
    assert!(aureum::logfiles::safe_filename("../x.log").is_err());
    assert!(aureum::logfiles::safe_filename("a/b.log").is_err());
    assert!(aureum::logfiles::safe_filename("ok.log").is_ok());
}

#[test]
fn rejects_path_traversal_names() {
    assert!(media_safe("../evil.png").is_err());
    assert!(media_safe("..\\evil.png").is_err());
    assert!(media_safe("a/b.png").is_err());
    assert!(media_safe("a\\b.png").is_err());
    assert!(media_safe("/tmp/x.png").is_err());
    assert!(media_safe("ok.png").is_ok());
    assert!(media_safe("shot.JPG").is_ok());
    assert!(media_safe("readme.txt").is_err());
}

#[test]
fn rejects_path_traversal() {
    assert!(safe_rel_path("../evil").is_err());
    assert!(safe_rel_path("mods/../../evil").is_err());
    assert!(safe_rel_path("mods/sodium.jar").is_ok());
}

#[test]
fn transitive_required_is_included() {
    let packages = vec![
        pkg("sodium", "1", vec![req("fabric-api", Some("2"))]),
        pkg("fabric-api", "2", vec![]),
    ];
    let latest = vec![pair("sodium", "1"), pair("fabric-api", "2")];
    let result = resolve(
        "inst",
        &[Selection {
            project_id: "sodium".to_string(),
            version_id: Some("1".to_string()),
            pin: false,
        }],
        &packages,
        &latest,
        &[],
    )
    .ok()
    .unwrap();
    assert!(result.conflicts.is_empty());
    assert_eq!(selected(&result.selected, "sodium").as_deref(), Some("1"));
    assert_eq!(selected(&result.selected, "fabric-api").as_deref(), Some("2"));
}

#[test]
fn conflicting_versions_are_reported() {
    let packages = vec![
        pkg("a", "1", vec![req("lib", Some("1"))]),
        pkg("b", "1", vec![req("lib", Some("2"))]),
        pkg("lib", "1", vec![]),
        pkg("lib", "2", vec![]),
    ];
    let latest = vec![pair("a", "1"), pair("b", "1"), pair("lib", "1")];
    let result = resolve(
        "inst",
        &[
            Selection {
                project_id: "a".to_string(),
                version_id: Some("1".to_string()),
                pin: false,
            },
            Selection {
                project_id: "b".to_string(),
                version_id: Some("1".to_string()),
                pin: false,
            },
        ],
        &packages,
        &latest,
        &[],
    )
    .ok()
    .unwrap();
    assert!(result.conflicts.iter().any(|c| c.project_id == "lib"
        || c.reason.contains("mismatch")
        || c.reason.contains("two required")));
}

#[test]
fn pin_wins_over_latest() {
    let packages = vec![pkg("mod", "old", vec![]), pkg("mod", "new", vec![])];
    let latest = vec![pair("mod", "new")];
    let pins = vec![pair("mod", "old")];
    let result = resolve(
        "inst",
        &[Selection {
            project_id: "mod".to_string(),
            version_id: None,
            pin: true,
        }],
        &packages,
        &latest,
        &pins,
    )
    .ok()
    .unwrap();
    assert_eq!(selected(&result.selected, "mod").as_deref(), Some("old"));
    assert!(result.conflicts.is_empty());
}

#[test]
fn incompatible_edge_conflicts() {
    let packages = vec![
        pkg(
            "a",
            "1",
            vec![DepRef {
                project_id: "b".to_string(),
                version_id: None,
                kind: DepKind::Incompatible,
            }],
        ),
        pkg("b", "1", vec![]),
    ];
    let latest = vec![pair("a", "1"), pair("b", "1")];
    let result = resolve(
        "inst",
        &[
            Selection {
                project_id: "a".to_string(),
                version_id: Some("1".to_string()),
                pin: false,
            },
            Selection {
                project_id: "b".to_string(),
                version_id: Some("1".to_string()),
                pin: false,
            },
        ],
        &packages,
        &latest,
        &[],
    )
    .ok()
    .unwrap();
    assert!(result.conflicts.iter().any(|c| c.reason.contains("incompatible")));
}
