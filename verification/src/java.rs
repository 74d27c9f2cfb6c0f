//! Java runtimes: the memory recommendation, where runtimes are looked for,
//! which one a launch uses, and what `java -version` says.
use vstd::prelude::*;
use crate::auth::first_line;
use crate::error::{AppError, AppResult};
use crate::paths::{join, path_join_str};
use crate::text::{
    chars_of, contains_seq, contains_str, find_char, lemma_index_of, lit, lower, oview, slice,
    str_eq, string_of, to_lower, trim, trimmed,
};

verus! {

broadcast use vstd::string::group_string_axioms;

/// A Java runtime found on this machine.
pub struct JavaInstall {
    pub path: String,
    pub version: String,
    pub vendor: Option<String>,
    pub source: String,
}

/// The machine's memory and the heap size suggested for the game.
pub struct MemoryInfo {
    pub total_mb: u64,
    pub recommended_mb: u64,
}

/// The suggested heap for a machine with `total_mb` MiB: 4 GiB above
/// 16 GiB, 2 GiB above 8 GiB, else 1 GiB; never more than all but 1 GiB,
/// never under 512 MiB.
pub open spec fn recommended_mb(total_mb: u64) -> u64 {
    let base: u64 = if total_mb > 16384 {
        4096
    } else if total_mb > 8192 {
        2048
    } else {
        1024
    };
    let spare: u64 = if total_mb >= 1024 {
        (total_mb - 1024) as u64
    } else {
        0
    };
    let capped: u64 = if base < spare {
        base
    } else {
        spare
    };
    if capped > 512 {
        capped
    } else {
        512
    }
}

/// The memory of a machine with `total_bytes` bytes of RAM.
pub fn memory_info(total_bytes: u64) -> (m: MemoryInfo)
    ensures
        m.total_mb == total_bytes / 1024 / 1024,
        m.recommended_mb == recommended_mb(m.total_mb),
{
    let total_mb = total_bytes / 1024 / 1024;
    let recommended: u64 = if total_mb > 16384 {
        4096
    } else if total_mb > 8192 {
        2048
    } else {
        1024
    };
    let spare = total_mb.saturating_sub(1024);
    let capped = if recommended < spare {
        recommended
    } else {
        spare
    };
    MemoryInfo { total_mb, recommended_mb: if capped > 512 {
        capped
    } else {
        512
    } }
}

/// The Java executable inside a runtime's home.
pub open spec fn java_bin_of(windows: bool) -> Seq<char> {
    if windows {
        "bin\\java.exe"@
    } else {
        "bin/java"@
    }
}

pub fn java_bin(windows: bool) -> (r: String)
    ensures
        r@ == java_bin_of(windows),
{
    if windows {
        lit("bin\\java.exe")
    } else {
        lit("bin/java")
    }
}

/// The Java executable of the runtime at `home`.
pub fn java_under(home: &str, windows: bool) -> (r: String)
    ensures
        r@ == join(home@, java_bin_of(windows)),
{
    let b = java_bin(windows);
    string_of(&path_join_str(&chars_of(home), b.as_str()))
}

/// The folders whose subfolders may hold runtimes, by operating system
/// (`windows`, `macos`, else Linux and the rest).
pub open spec fn roots_of(os: Seq<char>) -> Seq<Seq<char>> {
    if os == "windows"@ {
        seq![
            "C:\\Program Files\\Java"@,
            "C:\\Program Files\\Eclipse Adoptium"@,
            "C:\\Program Files\\Microsoft"@,
            "C:\\Program Files\\Zulu"@,
            "C:\\Program Files\\Amazon Corretto"@,
            "C:\\Program Files\\BellSoft"@,
            "C:\\Program Files\\AdoptOpenJDK"@,
            "C:\\Program Files\\Eclipse Foundation"@,
            "C:\\Program Files (x86)\\Java"@,
            "C:\\Program Files\\Microsoft\\jdk-21"@,
        ]
    } else if os == "macos"@ {
        seq!["/Library/Java/JavaVirtualMachines"@, "/opt/homebrew/opt/openjdk/libexec/openjdk.jdk/Contents/Home"@]
    } else {
        seq!["/usr/lib/jvm"@, "/usr/lib64/jvm"@]
    }
}

pub fn candidate_roots(os: &str) -> (r: Vec<String>)
    ensures
        r@.map_values(|s: String| s@) == roots_of(os@),
{
    let mut v: Vec<String> = Vec::new();
    if str_eq(os, "windows") {
        v.push(lit("C:\\Program Files\\Java"));
        v.push(lit("C:\\Program Files\\Eclipse Adoptium"));
        v.push(lit("C:\\Program Files\\Microsoft"));
        v.push(lit("C:\\Program Files\\Zulu"));
        v.push(lit("C:\\Program Files\\Amazon Corretto"));
        v.push(lit("C:\\Program Files\\BellSoft"));
        v.push(lit("C:\\Program Files\\AdoptOpenJDK"));
        v.push(lit("C:\\Program Files\\Eclipse Foundation"));
        v.push(lit("C:\\Program Files (x86)\\Java"));
        v.push(lit("C:\\Program Files\\Microsoft\\jdk-21"));
    } else if str_eq(os, "macos") {
        v.push(lit("/Library/Java/JavaVirtualMachines"));
        v.push(lit("/opt/homebrew/opt/openjdk/libexec/openjdk.jdk/Contents/Home"));
    } else {
        v.push(lit("/usr/lib/jvm"));
        v.push(lit("/usr/lib64/jvm"));
    }
    assert(v@.map_values(|s: String| s@) =~= roots_of(os@));
    v
}

/// A path given by the user counts when it is not empty.
pub open spec fn given(p: Option<&str>) -> Option<Seq<char>> {
    match p {
        Some(s) => if s@.len() > 0 {
            Some(s@)
        } else {
            None
        },
        None => None,
    }
}

/// The Java a launch uses: the override, else the instance's, else the
/// runtime of `JAVA_HOME` when its executable exists (`java_home_bin`),
/// else the `java` found on the search path (`on_path`).
pub fn resolve_bin(
    instance_path: Option<&str>,
    override_path: Option<&str>,
    java_home_bin: Option<String>,
    on_path: Option<String>,
) -> (r: AppResult<String>)
    ensures
        match (given(override_path), given(instance_path), oview(java_home_bin), oview(on_path)) {
            (Some(p), _, _, _) => r matches Ok(x) && x@ == p,
            (None, Some(p), _, _) => r matches Ok(x) && x@ == p,
            (None, None, Some(p), _) => r matches Ok(x) && x@ == p,
            (None, None, None, Some(p)) => r matches Ok(x) && x@ == p,
            (None, None, None, None) => r matches Err(e) && e.message@
                == "No Java on PATH. Discover a JDK in Settings."@,
        },
{
    match override_path {
        Some(p) => {
            if chars_of(p).len() > 0 {
                return Ok(lit(p));
            }
        },
        None => {},
    }
    match instance_path {
        Some(p) => {
            if chars_of(p).len() > 0 {
                return Ok(lit(p));
            }
        },
        None => {},
    }
    match java_home_bin {
        Some(p) => {
            return Ok(p);
        },
        None => {},
    }
    match on_path {
        Some(p) => Ok(p),
        None => Err(AppError::lit("No Java on PATH. Discover a JDK in Settings.")),
    }
}

/// The vendor `java -version` names, by the first of `temurin`, `zulu`,
/// `microsoft`, `graal`, `openjdk` its text holds (any letter case).
pub open spec fn vendor_of(text: Seq<char>) -> Option<Seq<char>> {
    let l = lower(text);
    if contains_seq(l, "temurin"@) {
        Some("Eclipse Temurin"@)
    } else if contains_seq(l, "zulu"@) {
        Some("Azul Zulu"@)
    } else if contains_seq(l, "microsoft"@) {
        Some("Microsoft"@)
    } else if contains_seq(l, "graal"@) {
        Some("GraalVM"@)
    } else if contains_seq(l, "openjdk"@) {
        Some("OpenJDK"@)
    } else {
        None
    }
}

/// The version line of `java -version`: its first line, trimmed, or
/// `unknown` when it printed nothing.
pub open spec fn version_line(text: Seq<char>) -> Seq<char> {
    if text.len() == 0 {
        "unknown"@
    } else {
        trim(first_line(text))
    }
}

/// What `java -version` says: it prints on its error stream, else on its
/// output; the version line and the vendor.
pub fn java_version_info(stdout: &str, stderr: &str) -> (r: (String, Option<String>))
    ensures
        ({
            let text = if stderr@.len() == 0 {
                stdout@
            } else {
                stderr@
            };
            r.0@ == version_line(text) && oview(r.1) == vendor_of(text)
        }),
{
    let text = if chars_of(stderr).len() == 0 {
        chars_of(stdout)
    } else {
        chars_of(stderr)
    };
    let version = if text.len() == 0 {
        lit("unknown")
    } else {
        let line = match find_char(&text, '\n') {
            Some(i) => {
                proof {
                    lemma_index_of(text@, '\n');
                }
                if i > 0 && text[i - 1] == '\r' {
                    slice(&text, 0, i - 1)
                } else {
                    slice(&text, 0, i)
                }
            },
            None => {
                proof {
                    lemma_index_of(text@, '\n');
                }
                crate::text::copy(&text)
            },
        };
        assert(line@ == first_line(text@));
        string_of(&trimmed(&line))
    };
    let l = to_lower(&text);
    let vendor = if contains_str(&l, "temurin") {
        Some(lit("Eclipse Temurin"))
    } else if contains_str(&l, "zulu") {
        Some(lit("Azul Zulu"))
    } else if contains_str(&l, "microsoft") {
        Some(lit("Microsoft"))
    } else if contains_str(&l, "graal") {
        Some(lit("GraalVM"))
    } else if contains_str(&l, "openjdk") {
        Some(lit("OpenJDK"))
    } else {
        None
    };
    (version, vendor)
}

/// Records a discovered runtime at canonical path `key`, from `source`:
/// a path seen before is skipped; a new one is remembered, and listed when
/// probing it answered (`probed`: its version line and vendor).
pub fn push_java(
    found: &mut Vec<JavaInstall>,
    seen: &mut Vec<String>,
    key: String,
    probed: Option<(String, Option<String>)>,
    source: &str,
)
    ensures
        (exists|i: int| 0 <= i < old(seen)@.len() && old(seen)@[i]@ == key@) ==> (final(found)@
            == old(found)@ && final(seen)@ == old(seen)@),
        !(exists|i: int| 0 <= i < old(seen)@.len() && old(seen)@[i]@ == key@) ==> {
            &&& final(seen)@ == old(seen)@.push(key)
            &&& match probed {
                Some((v, vendor)) => final(found)@.len() == old(found)@.len() + 1 && final(found)@.take(
                    old(found)@.len() as int,
                ) == old(found)@ && final(found)@.last() == (JavaInstall {
                    path: key,
                    version: v,
                    vendor,
                    source: final(found)@.last().source,
                }) && final(found)@.last().source@ == source@,
                None => final(found)@ == old(found)@,
            }
        },
{
    let mut i: usize = 0;
    while i < seen.len()
        invariant
            i <= seen.len(),
            seen@ == old(seen)@,
            found@ == old(found)@,
            forall|j: int| 0 <= j < i ==> seen@[j]@ != key@,
        decreases seen.len() - i,
    {
        if str_eq(seen[i].as_str(), key.as_str()) {
            return;
        }
        i += 1;
    }
    seen.push(key.clone());
    match probed {
        Some((version, vendor)) => {
            let ghost before = found@;
            found.push(JavaInstall { path: key, version, vendor, source: lit(source) });
            assert(found@.take(before.len() as int) =~= before);
        },
        None => {},
    }
}

} // verus!
