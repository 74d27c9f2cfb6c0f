use aureum::classpath::{build_classpath, choose_entries};
use aureum::java::{
    candidate_roots, java_bin, java_under, java_version_info, memory_info, push_java, resolve_bin,
    JavaInstall,
};
use aureum::logfiles::{
    is_previewable, list_files, read_preview as log_preview, read_text_capped, safe_filename as log_safe,
    LogFolder, LogScan,
};
use aureum::media::{
    check_preview_size, imported_file, list_media, mime_for_name, numbered, read_preview as media_preview,
    read_thumb, MediaScan,
};
use base64::Engine;

fn s(x: &str) -> String {
    x.to_string()
}

#[test]
fn rejects_traversal_in_log_names() {
    assert!(log_safe("../x.log").is_err());
    assert!(log_safe("a/b.log").is_err());
    assert_eq!(log_safe(" ok.log ").ok().unwrap(), "ok.log");
    assert_eq!(log_safe("").err().unwrap().message, "Empty file name");
    assert_eq!(log_safe("/etc/passwd").err().unwrap().message, "Absolute paths are not allowed");
    assert_eq!(log_safe("..").err().unwrap().message, "Unsafe file name");
    assert_eq!(log_safe("a\\b.log").err().unwrap().message, "Unsafe file name");
    assert_eq!(log_safe(&"x".repeat(256)).err().unwrap().message, "File name too long");
    assert_eq!(log_safe("a\0b").err().unwrap().message, "Invalid file name");
}

#[test]
fn log_listing_newest_first() {
    let scans = vec![
        LogScan { name: s("b.log"), size: 1, modified_at: Some(s("2024-01-01T00:00:00+00:00")) },
        LogScan { name: s("old.log.gz"), size: 2, modified_at: None },
        LogScan { name: s("A.log"), size: 3, modified_at: Some(s("2024-01-01T00:00:00+00:00")) },
        LogScan { name: s("../evil.log"), size: 4, modified_at: None },
        LogScan { name: s("latest.log"), size: 5, modified_at: Some(s("2025-06-01T00:00:00+00:00")) },
    ];
    let out = list_files(LogFolder::Logs, scans);
    let names: Vec<&str> = out.iter().map(|e| e.name.as_str()).collect();
    assert_eq!(names, vec!["latest.log", "A.log", "b.log", "old.log.gz"]);
    assert!(out[0].previewable);
    assert!(!out[3].previewable);
    assert_eq!(out[0].size, 5);
    assert!(out[0].folder == LogFolder::Logs);
}

#[test]
fn log_previews() {
    assert_eq!(read_text_capped(0, "ignored"), (s(""), false));
    assert_eq!(read_text_capped(18, "line1\nline2\nline3\n"), (s("line1\nline2\nline3"), false));
    let big = read_text_capped(600 * 1024, "partial\nkept1\nkept2");
    assert_eq!(big, (s("… [truncated — showing end of file]\nkept1\nkept2"), true));
    let many: String = (0..450).map(|i| format!("l{i}\n")).collect();
    let (text, truncated) = read_text_capped(many.len() as u64, &many);
    assert!(truncated);
    assert!(text.starts_with("… [truncated — showing end of file]\nl50\n"));
    assert!(text.ends_with("l449"));
    let p = log_preview(LogFolder::CrashReports, "crash.txt", 5, "boom\n").ok().unwrap();
    assert_eq!(p.text, "boom");
    assert_eq!(p.name, "crash.txt");
    assert_eq!(
        log_preview(LogFolder::Logs, "old.log.gz", 5, "x").err().unwrap().message,
        "Only .log, .txt, .json, and .md can be previewed here. Reveal the folder for .gz archives."
    );
    assert!(is_previewable("notes.MD"));
    assert!(LogFolder::from_str("crashReports").ok().unwrap() == LogFolder::CrashReports);
    assert_eq!(LogFolder::from_str("mods").err().unwrap().message, "Folder must be logs or crash-reports");
    assert_eq!(LogFolder::CrashReports.dir_name(), "crash-reports");
}

#[test]
fn media_listing_and_names() {
    let scans = vec![
        MediaScan { name: s("b.png"), size: 1, modified_at: Some(s("")) },
        MediaScan { name: s("readme.txt"), size: 2, modified_at: None },
        MediaScan { name: s("Shot.JPG"), size: 3, modified_at: Some(s("2024-05-01T00:00:00+00:00")) },
        MediaScan { name: s("a.webp"), size: 4, modified_at: None },
    ];
    let out = list_media(scans);
    let names: Vec<&str> = out.iter().map(|f| f.name.as_str()).collect();
    assert_eq!(names, vec!["Shot.JPG", "a.webp", "b.png"]);
    assert_eq!(out[0].mime, "image/jpeg");
    assert_eq!(out[2].modified_at, None);
    assert_eq!(mime_for_name("x.gif"), "image/gif");
    assert_eq!(mime_for_name("x.bin"), "application/octet-stream");
    assert_eq!(numbered("shot.png", 1), "shot-1.png");
    assert_eq!(numbered("a.b.jpeg", 12), "a.b-12.jpeg");
    assert_eq!(numbered(".png", 2), ".png-2.png");
    let f = imported_file(s("pic.jpeg"), 7);
    assert_eq!(f.mime, "image/jpeg");
    assert_eq!(f.modified_at, None);
}

#[test]
fn media_previews_are_data_urls() {
    let p = media_preview("pic.png", b"hello").ok().unwrap();
    assert_eq!(p.data_url, "data:image/png;base64,aGVsbG8=");
    assert_eq!(p.mime, "image/png");
    assert_eq!(
        media_preview("../pic.png", b"x").err().unwrap().message,
        "Unsafe file name"
    );
    assert_eq!(
        media_preview("notes.txt", b"x").err().unwrap().message,
        "Only png, jpg, jpeg, webp, and gif are allowed"
    );
    assert!(check_preview_size(20 * 1024 * 1024).is_ok());
    assert_eq!(
        check_preview_size(20 * 1024 * 1024 + 1).err().unwrap().message,
        "File too large to preview (max 20 MiB)"
    );
}

#[test]
fn thumbnails_are_small_jpegs() {
    let img = image::RgbImage::from_pixel(300, 150, image::Rgb([200, 30, 30]));
    let mut png: Vec<u8> = Vec::new();
    img.write_to(&mut std::io::Cursor::new(&mut png), image::ImageFormat::Png).unwrap();
    let t = read_thumb("shot.png", png.len() as u64, &png).ok().unwrap();
    assert_eq!(t.mime, "image/jpeg");
    let prefix = "data:image/jpeg;base64,";
    assert!(t.data_url.starts_with(prefix));
    let jpeg = base64::engine::general_purpose::STANDARD.decode(&t.data_url[prefix.len()..]).unwrap();
    let back = image::load_from_memory(&jpeg).unwrap();
    assert_eq!((back.width(), back.height()), (128, 64));
    let e = read_thumb("shot.png", 3, b"not an image").err().unwrap();
    assert!(e.message.starts_with("Could not decode image: "));
    assert_eq!(read_thumb("shot.png", 21 * 1024 * 1024, &png).err().unwrap().message, "File too large for thumbnail");
}

#[test]
fn java_memory_and_lookup() {
    let gib: u64 = 1024 * 1024 * 1024;
    assert_eq!(memory_info(32 * gib).recommended_mb, 4096);
    assert_eq!(memory_info(32 * gib).total_mb, 32768);
    assert_eq!(memory_info(12 * gib).recommended_mb, 2048);
    assert_eq!(memory_info(2 * gib).recommended_mb, 1024);
    assert_eq!(memory_info(gib + gib / 2).recommended_mb, 512);
    assert_eq!(memory_info(0).recommended_mb, 512);
    assert_eq!(java_bin(false), "bin/java");
    assert_eq!(java_bin(true), "bin\\java.exe");
    assert_eq!(java_under("/opt/jdk", false), "/opt/jdk/bin/java");
    assert_eq!(candidate_roots("linux"), vec![s("/usr/lib/jvm"), s("/usr/lib64/jvm")]);
    assert_eq!(candidate_roots("windows").len(), 10);
    assert_eq!(resolve_bin(Some("/i/java"), Some("/o/java"), None, None).ok().unwrap(), "/o/java");
    assert_eq!(resolve_bin(Some("/i/java"), Some(""), None, None).ok().unwrap(), "/i/java");
    assert_eq!(resolve_bin(None, None, Some(s("/home/bin/java")), Some(s("/usr/bin/java"))).ok().unwrap(), "/home/bin/java");
    assert_eq!(resolve_bin(Some(""), None, None, Some(s("/usr/bin/java"))).ok().unwrap(), "/usr/bin/java");
    assert_eq!(
        resolve_bin(None, None, None, None).err().unwrap().message,
        "No Java on PATH. Discover a JDK in Settings."
    );
}

#[test]
fn java_probes_and_discovery() {
    let (v, vendor) = java_version_info("", "openjdk version \"21.0.2\" 2024-01-16 LTS\r\nOpenJDK Runtime Environment Temurin-21.0.2+13\n");
    assert_eq!(v, "openjdk version \"21.0.2\" 2024-01-16 LTS");
    assert_eq!(vendor.as_deref(), Some("Eclipse Temurin"));
    let (v, vendor) = java_version_info("", "");
    assert_eq!(v, "unknown");
    assert_eq!(vendor, None);
    let (_, vendor) = java_version_info("java 17 Zulu", "");
    assert_eq!(vendor.as_deref(), Some("Azul Zulu"));
    let mut found: Vec<JavaInstall> = Vec::new();
    let mut seen: Vec<String> = Vec::new();
    push_java(&mut found, &mut seen, s("/jdk/bin/java"), Some((s("21"), None)), "PATH");
    push_java(&mut found, &mut seen, s("/jdk/bin/java"), Some((s("21"), None)), "JAVA_HOME");
    push_java(&mut found, &mut seen, s("/broken/bin/java"), None, "PATH");
    assert_eq!(found.len(), 1);
    assert_eq!(found[0].source, "PATH");
    assert_eq!(seen.len(), 2);
}

#[test]
fn classpath_in_path_order_without_repeats() {
    let cp = build_classpath(
        vec![s("/lib/b.jar"), s("/lib/a.b"), s("/lib/a/c.jar"), s("/lib//b.jar"), s("rel.jar")],
        false,
    );
    assert_eq!(cp, "/lib/a/c.jar:/lib/a.b:/lib/b.jar:rel.jar");
    assert_eq!(build_classpath(vec![s("b"), s("a")], true), "a;b");
    let chosen = choose_entries(&vec![(s("/c/x.jar"), s("/g/x.jar")), (s("/c/y.jar"), s("/g/y.jar"))], &vec![true, false]);
    assert_eq!(chosen, vec![s("/c/x.jar"), s("/g/y.jar")]);
}
