use aureum::install::verify_sha1;
use aureum::logfiles::{list_files, read_preview as log_preview, LogFolder, LogScan};
use aureum::media::{imported_file, list_media, read_preview as media_preview, read_thumb, safe_filename, MediaScan};
use aureum::mrpack::{check_index, loader_from_deps, MrpackIndex};
use sha1::Digest;
use std::io::{Read, Write};

fn s(x: &str) -> String {
    x.to_string()
}

#[test]
fn sha1_roundtrip() {
    let expected = hex::encode(sha1::Sha1::digest(b"hello"));
    verify_sha1("aureum-sha1-test.bin", b"hello", &expected).unwrap();
}

#[test]
fn list_preview_delete_roundtrip() {
    let text = "line1\nline2\nline3\n";
    let latest = LogScan { name: s("latest.log"), size: text.len() as u64, modified_at: None };
    let gz = LogScan { name: s("old.log.gz"), size: 2, modified_at: None };
    let listed = list_files(LogFolder::Logs, vec![latest, gz]);
    assert_eq!(listed.len(), 2);
    let previewable = listed.iter().find(|e| e.name == "latest.log").unwrap();
    assert!(previewable.previewable);
    let gz = listed.iter().find(|e| e.name == "old.log.gz").unwrap();
    assert!(!gz.previewable);

    let preview = log_preview(LogFolder::Logs, "latest.log", text.len() as u64, text).unwrap();
    assert!(preview.text.contains("line2"));
    assert!(!preview.truncated);

    assert!(log_preview(LogFolder::Logs, "../latest.log", 0, "").is_err());
    assert!(log_preview(LogFolder::Logs, "old.log.gz", 2, "\u{1f}").is_err());

    let after_delete = list_files(LogFolder::Logs, vec![LogScan { name: s("old.log.gz"), size: 2, modified_at: None }]);
    assert_eq!(after_delete.len(), 1);
}

#[test]
fn list_import_delete_roundtrip() {
    let png = image::RgbImage::from_pixel(1, 1, image::Rgb([10, 20, 30]));
    let mut bytes: Vec<u8> = Vec::new();
    png.write_to(&mut std::io::Cursor::new(&mut bytes), image::ImageFormat::Png).unwrap();

    let imported = imported_file(s("from.png"), bytes.len() as u64);
    assert_eq!(imported.name, "from.png");

    let listed = list_media(vec![MediaScan { name: s("from.png"), size: bytes.len() as u64, modified_at: None }]);
    assert_eq!(listed.len(), 1);

    let preview = media_preview("from.png", &bytes).unwrap();
    assert!(preview.data_url.starts_with("data:image/png;base64,"));

    let thumb = read_thumb("from.png", bytes.len() as u64, &bytes).unwrap();
    assert!(thumb.data_url.starts_with("data:image/jpeg;base64,"));

    assert!(list_media(vec![]).is_empty());

    assert!(media_preview("../from.png", &bytes).is_err());
    assert!(safe_filename("..\\from.png").is_err());
}

#[test]
fn parses_minimal_index() {
    let index = r#"{
      "formatVersion": 1,
      "game": "minecraft",
      "versionId": "1.0.0",
      "name": "Test Pack",
      "files": [],
      "dependencies": { "minecraft": "1.21.1", "fabric-loader": "0.16.0" }
    }"#;
    let mut archive: Vec<u8> = Vec::new();
    {
        let mut zip = zip::ZipWriter::new(std::io::Cursor::new(&mut archive));
        zip.start_file("modrinth.index.json", zip::write::SimpleFileOptions::default()).unwrap();
        zip.write_all(index.as_bytes()).unwrap();
        zip.finish().unwrap();
    }
    let mut zip = zip::ZipArchive::new(std::io::Cursor::new(archive)).unwrap();
    let mut raw = Vec::new();
    zip.by_name("modrinth.index.json").unwrap().read_to_end(&mut raw).unwrap();
    let v: serde_json::Value = serde_json::from_slice(&raw).unwrap();
    let deps: Vec<(String, String)> = v["dependencies"]
        .as_object()
        .unwrap()
        .iter()
        .map(|(k, v)| (k.clone(), v.as_str().unwrap().to_string()))
        .collect();
    let parsed = MrpackIndex {
        format_version: v["formatVersion"].as_u64().unwrap() as u32,
        game: s(v["game"].as_str().unwrap()),
        version_id: s(v["versionId"].as_str().unwrap()),
        name: s(v["name"].as_str().unwrap()),
        summary: None,
        files: vec![],
        dependencies: deps,
    };
    check_index(&parsed).unwrap();
    assert_eq!(parsed.name, "Test Pack");
    let (loader, ver, game) = loader_from_deps(&parsed.dependencies).unwrap();
    assert_eq!(loader, "fabric");
    assert_eq!(ver.as_deref(), Some("0.16.0"));
    assert_eq!(game, "1.21.1");
}
