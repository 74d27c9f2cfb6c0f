use aureum::content::{list_content, ContentScan};
use aureum::instances::Instance;
use aureum::logfiles::{list_files, LogFolder, LogScan};
use aureum::media::{list_media, MediaScan};
use aureum::resolve::Lockfile;

fn inst() -> Instance {
    Instance {
        id: "i1".into(),
        name: "t".into(),
        loader: "fabric".into(),
        game_version: "1.21.1".into(),
        loader_version: None,
        game_dir: "/g".into(),
        java_path: None,
        memory_mb: 2048,
        jvm_args: None,
        keep_open: true,
        last_played: None,
        icon: None,
        created_at: String::new(),
        updated_at: String::new(),
    }
}

fn scan(folder: &str, name: &str, is_dir: bool) -> ContentScan {
    ContentScan { folder: folder.into(), name: name.into(), is_dir, is_file: !is_dir }
}

fn ids(instance: &Instance, scans: &Vec<ContentScan>) -> Vec<String> {
    list_content(instance, &Lockfile::empty("i1"), scans).into_iter().map(|c| c.id).collect()
}

#[test]
fn removing_content_unlists_only_that_entry() {
    let instance = inst();
    let all = vec![
        scan("shaderpacks", "fancy", true),
        scan("resourcepacks", "pack.zip", false),
        scan("resourcepacks", "b.zip", false),
        scan("datapacks", "d.zip", false),
    ];
    assert_eq!(ids(&instance, &all), vec!["datapacks:d.zip", "resourcepacks:b.zip", "resourcepacks:pack.zip", "shaderpacks:fancy"]);
    let fewer = vec![scan("shaderpacks", "fancy", true), scan("resourcepacks", "b.zip", false), scan("datapacks", "d.zip", false)];
    assert_eq!(ids(&instance, &fewer), vec!["datapacks:d.zip", "resourcepacks:b.zip", "shaderpacks:fancy"]);
}

fn log(name: &str, at: &str) -> LogScan {
    LogScan { name: name.into(), size: 1, modified_at: Some(at.into()) }
}

#[test]
fn deleting_a_log_unlists_only_that_file() {
    let before = list_files(
        LogFolder::Logs,
        vec![log("a.log", "2024-01-01T00:00:00Z"), log("b.log", "2024-01-03T00:00:00Z"), log("c.log", "2024-01-02T00:00:00Z")],
    );
    let names: Vec<String> = before.iter().map(|e| e.name.clone()).collect();
    assert_eq!(names, vec!["b.log", "c.log", "a.log"]);
    let after = list_files(LogFolder::Logs, vec![log("a.log", "2024-01-01T00:00:00Z"), log("c.log", "2024-01-02T00:00:00Z")]);
    let names: Vec<String> = after.iter().map(|e| e.name.clone()).collect();
    assert_eq!(names, vec!["c.log", "a.log"]);
}

fn shot(name: &str, at: &str) -> MediaScan {
    MediaScan { name: name.into(), size: 7, modified_at: Some(at.into()) }
}

#[test]
fn importing_a_screenshot_lists_it_among_the_others() {
    let without = list_media(vec![shot("a.png", "2024-01-01T00:00:00Z")]);
    assert_eq!(without.len(), 1);
    let with = list_media(vec![shot("a.png", "2024-01-01T00:00:00Z"), shot("from-1.png", "2024-01-02T00:00:00Z")]);
    assert_eq!(with.len(), 2);
    assert_eq!(with[0].name, "from-1.png");
    assert_eq!(with[0].mime, "image/png");
    assert_eq!(with[0].size, 7);
    assert_eq!(with[1].name, "a.png");
}
