use aureum::instances::slugify;
use aureum::mrpack::safe_rel_path;
use aureum::resolve::{resolve, DepKind, DepRef, Package, Selection};

fn pkg(id: &str, ver: &str, deps: Vec<DepRef>) -> Package {
    Package { project_id: id.to_string(), version_id: ver.to_string(), name: id.to_string(), deps }
}

fn dep(id: &str, ver: Option<&str>, kind: DepKind) -> DepRef {
    DepRef { project_id: id.to_string(), version_id: ver.map(|s| s.to_string()), kind }
}

fn root(id: &str, ver: Option<&str>, pin: bool) -> Selection {
    Selection { project_id: id.to_string(), version_id: ver.map(|s| s.to_string()), pin }
}

fn pair(a: &str, b: &str) -> (String, String) {
    (a.to_string(), b.to_string())
}

fn selected(result: &[(String, String)], id: &str) -> Option<String> {
    result.iter().find(|(p, _)| p == id).map(|(_, v)| v.clone())
}

#[test]
fn incompatible_edge_to_a_later_selected_project_is_reported() {
    let packages = vec![
        pkg("a", "1", vec![dep("c", None, DepKind::Incompatible), dep("b", None, DepKind::Required)]),
        pkg("b", "1", vec![dep("c", None, DepKind::Required)]),
        pkg("c", "1", vec![]),
    ];
    let latest = vec![pair("a", "1"), pair("b", "1"), pair("c", "1")];
    let result = resolve("inst", &[root("a", None, false)], &packages, &latest, &[]).ok().unwrap();
    assert_eq!(selected(&result.selected, "c").as_deref(), Some("1"));
    assert_eq!(result.conflicts.len(), 1);
    let c = &result.conflicts[0];
    assert_eq!((c.project_id.as_str(), c.left.as_str(), c.right.as_str()), ("c", "a", "c"));
    assert_eq!(c.reason, "incompatible dependency");
}

#[test]
fn incompatible_edge_to_an_unselected_project_is_not_a_conflict() {
    let packages = vec![pkg("a", "1", vec![dep("z", None, DepKind::Incompatible)])];
    let latest = vec![pair("a", "1")];
    let result = resolve("inst", &[root("a", None, false)], &packages, &latest, &[]).ok().unwrap();
    assert!(result.conflicts.is_empty());
}

#[test]
fn pinned_root_keeps_its_version() {
    let packages = vec![
        pkg("a", "1", vec![dep("b", Some("2"), DepKind::Required)]),
        pkg("b", "1", vec![]),
        pkg("b", "2", vec![]),
    ];
    let latest = vec![pair("a", "1"), pair("b", "1")];
    let roots = [root("a", Some("1"), false), root("b", Some("1"), true)];
    let result = resolve("inst", &roots, &packages, &latest, &[]).ok().unwrap();
    assert_eq!(selected(&result.selected, "b").as_deref(), Some("1"));
    assert!(result.conflicts.is_empty());
    let unpinned = [root("a", Some("1"), false), root("b", Some("1"), false)];
    let result = resolve("inst", &unpinned, &packages, &latest, &[]).ok().unwrap();
    assert_eq!(selected(&result.selected, "b").as_deref(), Some("2"));
}

#[test]
fn given_pins_win_over_pinned_roots() {
    let packages = vec![pkg("b", "1", vec![]), pkg("b", "3", vec![])];
    let latest = vec![pair("b", "1")];
    let roots = [root("b", Some("1"), true)];
    let result = resolve("inst", &roots, &packages, &latest, &[pair("b", "3")]).ok().unwrap();
    assert_eq!(selected(&result.selected, "b").as_deref(), Some("3"));
}

#[test]
fn backslash_and_drive_paths_are_refused() {
    assert_eq!(safe_rel_path("..\\x").err().unwrap().message, "Unsafe pack path: ..\\x");
    assert_eq!(safe_rel_path("mods\\..\\..\\x").err().unwrap().message, "Unsafe pack path: mods\\..\\..\\x");
    assert_eq!(safe_rel_path("\\x").err().unwrap().message, "Unsafe pack path: \\x");
    assert_eq!(safe_rel_path("C:\\x").err().unwrap().message, "Unsafe absolute pack path: C:\\x");
    assert_eq!(safe_rel_path("C:/x").err().unwrap().message, "Unsafe absolute pack path: C:/x");
    assert_eq!(safe_rel_path("C:x").err().unwrap().message, "Unsafe pack path: C:x");
    assert_eq!(safe_rel_path("./C:/x").err().unwrap().message, "Unsafe pack path: ./C:/x");
    assert_eq!(safe_rel_path("mods\\a.jar").ok().unwrap(), "mods/a.jar");
    assert_eq!(safe_rel_path("./mods/./a.jar").ok().unwrap(), "mods/a.jar");
    assert_eq!(safe_rel_path("config/a:b.txt").ok().unwrap(), "config/a:b.txt");
    assert_eq!(safe_rel_path("./").err().unwrap().message, "Empty pack path: ./");
}

#[test]
fn slugs_are_stable() {
    for name in ["Vanilla 1.21", "  --Hello__World!! ", "@@@", "instance", "a--b", "Ωmega 2"] {
        let s = slugify(name);
        assert!(!s.contains("--"));
        assert_eq!(slugify(&s), s);
    }
    assert_eq!(slugify("!!! ???"), "instance");
}
