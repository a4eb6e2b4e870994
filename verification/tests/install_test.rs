use kitewright::archive::{extract_entry, extract_zip, open_archive, ExtractStep, ZipEntry};
use kitewright::install::{
    binary_path, cache_root, current_platform, executable_mode, find_installed_browser, first_existing,
    headless_shell_binary_name, known_system_browser, map_platform, pick_download_url, run,
    system_browser_paths, version_dir, version_key, InstallAction, InstallStart, InstallState,
    InstalledVersion, CFT_MANIFEST_URL,
};
use kitewright::json::Json;
use kitewright::paths::{extension_of, is_shell_wrapper, join_path};
use std::io::Write;

fn parse(s: &str) -> Json {
    match Json::parse(s) {
        Ok(j) => j,
        Err(e) => panic!("{s}: {e}"),
    }
}

#[test]
fn cache_root_prefers_kite_cache_dir() {
    let root = cache_root(
        Some("/custom/cache".to_string()),
        Some("/os/cache".to_string()),
        "/tmp",
        "linux",
    );
    assert_eq!(root, "/custom/cache/kitewright/chrome-headless-shell");
    // Empty KITE_CACHE_DIR falls through to the platform cache dir.
    let root = cache_root(Some("".to_string()), Some("/os/cache".to_string()), "/tmp", "linux");
    assert_eq!(root, "/os/cache/kitewright/chrome-headless-shell");
}

#[test]
fn cache_root_falls_back_to_the_temporary_directory() {
    assert_eq!(
        cache_root(None, None, "/tmp/", "linux"),
        "/tmp/kitewright/chrome-headless-shell"
    );
}

#[test]
fn version_key_orders_numerically() {
    // Lexical sort would put "120" before "99"; numeric must not.
    assert!(version_key("120.0.0.0") > version_key("99.0.4844.51"));
    assert!(version_key("120.0.6099.109") > version_key("120.0.6099.99"));
    assert_eq!(version_key("1.2.3"), vec![1, 2, 3]);
}

#[test]
fn version_components_that_are_no_numbers_count_as_zero() {
    assert_eq!(version_key("1.x.3"), vec![1, 0, 3]);
    assert_eq!(version_key(""), vec![0]);
}

#[test]
fn first_existing_skips_missing_returns_present() {
    let present = "/tmp/kite-detect-existence-marker".to_string();
    // A bogus path first (like the orphaned /Applications/Chromium.app) must
    // be skipped in favor of the one that actually exists.
    assert_eq!(
        first_existing(
            &vec!["/no/such/kite/browser/path".to_string(), present.clone()],
            &vec![false, true]
        ),
        Some(present)
    );
    assert_eq!(
        first_existing(
            &vec!["/no/such/a".to_string(), "/no/such/b".to_string()],
            &vec![false, false]
        ),
        None
    );
}

#[test]
fn system_browsers_in_order() {
    let paths = system_browser_paths();
    assert_eq!(paths.len(), 12);
    let mut there = vec![false; 12];
    assert_eq!(known_system_browser(&there), None);
    there[6] = true;
    there[8] = true;
    assert_eq!(known_system_browser(&there).as_deref(), Some("/usr/bin/chromium"));
}

#[test]
fn shell_wrapper_shims_are_rejected() {
    // The exact shim chromiumoxide detection returns on macOS when the
    // Homebrew Chromium cask is installed but its app was removed.
    assert!(is_shell_wrapper("/opt/homebrew/Caskroom/chromium/latest/chromium.wrapper.sh", "linux"));
    assert!(is_shell_wrapper("/some/where/launch.sh", "linux"));
    // Real browser executables must not be flagged.
    assert!(!is_shell_wrapper("/Applications/Google Chrome.app/Contents/MacOS/Google Chrome", "linux"));
    assert!(!is_shell_wrapper("/usr/bin/chromium", "linux"));
}

#[test]
fn extensions_agree_with_the_standard_library() {
    for p in [
        "/a/b.sh", "/a/b.sh/", "/a/b.sh/.", "/a/.sh", "/a/..", "b.tar.gz", "b.", "", "/", "..", "./x.y",
        "/a.d/b", "a/./", ".", "x/..sh",
    ] {
        let want = std::path::Path::new(p)
            .extension()
            .map(|e| e.to_str().unwrap().to_string());
        assert_eq!(extension_of(p, "linux"), want, "{p:?}");
    }
}

#[test]
fn joined_paths_agree_with_the_standard_library() {
    for (a, b) in [("/a", "b"), ("/a/", "b"), ("", "b"), ("/a", "/b"), ("a/b", "c/d")] {
        let want = std::path::Path::new(a).join(b);
        assert_eq!(join_path(a, b, "linux"), want.to_str().unwrap(), "{a:?} {b:?}");
    }
}

#[test]
fn find_installed_browser_picks_newest_version() {
    let bin = headless_shell_binary_name("linux");
    // Two versions, binary nested under a platform folder in the newer one.
    let versions = vec![
        InstalledVersion { name: "99.0.4844.51".to_string(), direct: true, nested: None },
        InstalledVersion {
            name: "120.0.6099.109".to_string(),
            direct: false,
            nested: Some("chrome-headless-shell-x64".to_string()),
        },
    ];
    let found = find_installed_browser("/cache", &versions, "linux").expect("should find a binary");
    assert!(found.starts_with("/cache/120.0.6099.109"));
    assert!(found.ends_with(&format!("/{bin}")));
    // Empty / missing dir → None.
    assert!(find_installed_browser("/cache/nope", &vec![], "linux").is_none());
}

#[test]
fn versions_without_a_binary_are_passed_over() {
    let versions = vec![
        InstalledVersion { name: "9".to_string(), direct: true, nested: None },
        InstalledVersion { name: "200".to_string(), direct: false, nested: None },
        InstalledVersion { name: "9".to_string(), direct: false, nested: Some("p".to_string()) },
    ];
    assert_eq!(
        find_installed_browser("/c", &versions, "windows").as_deref(),
        Some("/c\\9\\chrome-headless-shell.exe")
    );
}

#[test]
fn platform_mapping_covers_supported_targets() {
    assert_eq!(map_platform("macos", "aarch64"), Some("mac-arm64"));
    assert_eq!(map_platform("macos", "x86_64"), Some("mac-x64"));
    assert_eq!(map_platform("linux", "x86_64"), Some("linux64"));
    assert_eq!(map_platform("windows", "x86_64"), Some("win64"));
    // Unsupported: CfT publishes no chrome-headless-shell for these.
    assert_eq!(map_platform("linux", "aarch64"), None);
    assert_eq!(map_platform("freebsd", "x86_64"), None);
}

#[test]
fn platforms_without_builds_say_what_to_do() {
    assert_eq!(current_platform("linux", "x86_64").unwrap(), "linux64");
    assert_eq!(
        current_platform("linux", "aarch64").unwrap_err(),
        "no Chrome-for-Testing chrome-headless-shell build for linux/aarch64 — set BROWSER_EXECUTABLE to an existing Chrome/Chromium instead"
    );
}

#[test]
fn binary_path_layout_matches_cft_zip() {
    let p = binary_path("/cache", "120.0.6099.109", "mac-arm64", "macos");
    assert!(p.ends_with(&format!(
        "120.0.6099.109/chrome-headless-shell-mac-arm64/{}",
        headless_shell_binary_name("macos")
    )));
    assert_eq!(version_dir("/cache", "1", "linux"), "/cache/1");
}

#[test]
fn installed_binaries_are_executable() {
    assert_eq!(executable_mode(0o644), 0o755);
    assert_eq!(executable_mode(0o100600), 0o100755);
}

#[test]
fn pick_download_url_selects_latest_matching_platform() {
    let manifest = parse(
        r#"{
            "versions": [
                {
                    "version": "113.0.5672.0",
                    "downloads": {
                        "chrome-headless-shell": [
                            { "platform": "linux64", "url": "https://ex/113/linux64.zip" },
                            { "platform": "mac-arm64", "url": "https://ex/113/mac-arm64.zip" }
                        ]
                    }
                },
                {
                    "version": "999.0.0.0",
                    "downloads": {
                        "chrome-headless-shell": [
                            { "platform": "win64", "url": "https://ex/999/win64.zip" }
                        ]
                    }
                }
            ]
        }"#,
    );
    // Latest with a linux64 build is 113.
    assert_eq!(
        pick_download_url(&manifest, "linux64"),
        Some((
            "113.0.5672.0".to_string(),
            "https://ex/113/linux64.zip".to_string()
        ))
    );
    // win64 only exists in 999.
    assert_eq!(
        pick_download_url(&manifest, "win64"),
        Some((
            "999.0.0.0".to_string(),
            "https://ex/999/win64.zip".to_string()
        ))
    );
    // No build for this platform anywhere.
    assert_eq!(pick_download_url(&manifest, "mac-x64"), None);
}

#[test]
fn pick_download_url_skips_versions_without_headless_shell() {
    // Early CfT versions have no chrome-headless-shell key at all.
    let manifest = parse(
        r#"{
            "versions": [
                { "version": "100.0.0.0", "downloads": { "chrome": [] } },
                {
                    "version": "120.0.0.0",
                    "downloads": {
                        "chrome-headless-shell": [
                            { "platform": "linux64", "url": "https://ex/120/linux64.zip" }
                        ]
                    }
                }
            ]
        }"#,
    );
    assert_eq!(
        pick_download_url(&manifest, "linux64"),
        Some((
            "120.0.0.0".to_string(),
            "https://ex/120/linux64.zip".to_string()
        ))
    );
}

#[test]
fn unusable_manifests_offer_nothing() {
    assert_eq!(pick_download_url(&parse("{}"), "linux64"), None);
    assert_eq!(pick_download_url(&parse(r#"{"versions":[{}]}"#), "linux64"), None);
}

#[test]
fn nameless_manifest_entries_are_passed_over() {
    let manifest = parse(
        r#"{"versions":[
            {"version":"120.0.0.0","downloads":{"chrome-headless-shell":[{"platform":"linux64","url":"u"}]}},
            {"downloads":{}}
        ]}"#,
    );
    let pick = Some(("120.0.0.0".to_string(), "u".to_string()));
    assert_eq!(pick_download_url(&manifest, "linux64"), pick);
    // One that offers the platform, but under no name, is no version either.
    let manifest = parse(
        r#"{"versions":[
            {"version":"120.0.0.0","downloads":{"chrome-headless-shell":[{"platform":"linux64","url":"u"}]}},
            {"downloads":{"chrome-headless-shell":[{"platform":"linux64","url":"w"}]}},
            {"version":7,"downloads":{"chrome-headless-shell":[{"platform":"linux64","url":"x"}]}}
        ]}"#,
    );
    assert_eq!(pick_download_url(&manifest, "linux64"), pick);
}

#[test]
fn installed_build_is_found_again() {
    let version = |name: &str, sub: &str| InstalledVersion {
        name: name.to_string(),
        direct: false,
        nested: Some(sub.to_string()),
    };
    let mut versions = vec![
        version("119.0.0.0", "chrome-headless-shell-linux64"),
        version("120.0.0.0", "chrome-headless-shell-linux64"),
    ];
    assert_eq!(
        find_installed_browser("/c", &versions, "linux"),
        Some(binary_path("/c", "120.0.0.0", "linux64", "linux"))
    );
    versions.push(version("121.0.0.0", "chrome-headless-shell-linux64"));
    assert_eq!(
        find_installed_browser("/c", &versions, "linux").as_deref(),
        Some("/c/121.0.0.0/chrome-headless-shell-linux64/chrome-headless-shell")
    );
}

fn begin() -> kitewright::install::Install {
    match run(&vec![], "linux", "x86_64", "/cache") {
        Ok(InstallStart::Begin(i)) => i,
        _ => panic!("the install begins"),
    }
}

#[test]
fn install_help_and_unsupported_platforms() {
    assert!(matches!(
        run(&vec!["x".to_string(), "-h".to_string()], "linux", "aarch64", "/c"),
        Ok(InstallStart::Help)
    ));
    assert!(run(&vec![], "linux", "aarch64", "/c").is_err());
}

#[test]
fn install_is_a_no_op_once_a_build_is_present() {
    let mut i = begin();
    let (say, next) = i.looked(Some("/cache/1/bin".to_string()));
    assert!(matches!(next, InstallAction::Finish));
    assert_eq!(i.state, InstallState::Done);
    assert_eq!(
        say,
        "chrome-headless-shell already installed at:\n  /cache/1/bin\n(delete the cache dir to force a re-download)\n"
    );
}

#[test]
fn install_runs_to_the_end() {
    let mut i = begin();
    let (say, next) = i.looked(None);
    assert_eq!(say, "Resolving latest Chrome-for-Testing build for linux64...\n");
    assert!(matches!(next, InstallAction::FetchManifest(u) if u == CFT_MANIFEST_URL));
    let manifest = parse(
        r#"{"versions":[{"version":"120.0","downloads":{"chrome-headless-shell":[{"platform":"linux64","url":"https://ex/z.zip"}]}}]}"#,
    );
    let target = "/cache/120.0/chrome-headless-shell-linux64/chrome-headless-shell";
    assert!(matches!(i.resolved(&manifest), Ok(InstallAction::CheckFile(p)) if p == target));
    let (say, next) = i.checked(false);
    assert_eq!(say, "Downloading chrome-headless-shell 120.0...\n  https://ex/z.zip\n");
    assert!(matches!(next, InstallAction::Download(u) if u == "https://ex/z.zip"));
    let (say, next) = i.downloaded(9);
    assert_eq!(say, "Extracting 9 bytes to /cache/120.0...\n");
    assert!(matches!(next, InstallAction::Extract(d) if d == "/cache/120.0"));
    assert!(matches!(i.extracted(), InstallAction::CheckFile(p) if p == target));
    assert_eq!(
        i.verified(false).err().unwrap(),
        format!("extraction completed but the expected binary was not found at {target}")
    );
    assert!(matches!(i.verified(true), Ok(InstallAction::MakeExecutable(p)) if p == target));
    let (say, next) = i.finished();
    assert!(say.contains("Installed chrome-headless-shell 120.0\nBinary: /cache/120.0/"));
    assert!(matches!(next, InstallAction::Finish));
}

#[test]
fn install_stops_where_the_version_is_present_or_missing() {
    let mut i = begin();
    i.looked(None);
    assert_eq!(
        i.resolved(&parse("{}")).err().unwrap(),
        "no chrome-headless-shell download found for platform linux64"
    );
    let manifest = parse(
        r#"{"versions":[{"version":"1","downloads":{"chrome-headless-shell":[{"platform":"linux64","url":"u"}]}}]}"#,
    );
    assert!(i.resolved(&manifest).is_ok());
    let (say, next) = i.checked(true);
    assert!(say.starts_with("chrome-headless-shell 1 already present:\n  /cache/1/"));
    assert!(matches!(next, InstallAction::Finish));
}

// -- archives ------------------------------------------------------------------------

fn archive() -> Vec<u8> {
    let mut w = zip::ZipWriter::new(std::io::Cursor::new(Vec::new()));
    let opts = zip::write::SimpleFileOptions::default().unix_permissions(0o755);
    w.add_directory("dir/", opts).unwrap();
    w.start_file("dir/bin", opts).unwrap();
    w.write_all(b"payload").unwrap();
    w.start_file("../evil", opts).unwrap();
    w.write_all(b"x").unwrap();
    w.start_file("/abs/../../up", opts).unwrap();
    w.write_all(b"x").unwrap();
    w.finish().unwrap().into_inner()
}

#[test]
fn archives_extract_below_their_destination() {
    let data = archive();
    assert_eq!(open_archive(&data).unwrap(), 4);
    assert!(matches!(
        extract_zip(&data, 0, "/dest", "linux"),
        Ok(ExtractStep::Directory(p)) if p == "/dest/dir/"
    ));
    match extract_zip(&data, 1, "/dest", "linux") {
        Ok(ExtractStep::File { path, mode, contents }) => {
            assert_eq!(path, "/dest/dir/bin");
            assert_eq!(mode.map(|m| m & 0o777), Some(0o755));
            assert_eq!(contents, b"payload");
        }
        _ => panic!("a file"),
    }
    assert!(matches!(extract_zip(&data, 2, "/dest", "linux"), Ok(ExtractStep::Skip)));
    assert!(matches!(extract_zip(&data, 3, "/dest", "linux"), Ok(ExtractStep::Skip)));
    assert_eq!(
        extract_zip(&data, 4, "/dest", "linux").err().unwrap(),
        "failed to read zip entry: specified file not found in archive"
    );
}

#[test]
fn broken_archives_are_reported() {
    let e = open_archive(b"not a zip").unwrap_err();
    assert!(e.starts_with("failed to open downloaded zip: "), "{e}");
    assert!(e.len() > "failed to open downloaded zip: ".len());
    assert_eq!(extract_zip(b"not a zip", 0, "/d", "linux").err().unwrap(), e);
}

#[test]
fn corrupt_entries_are_written_as_far_as_they_go() {
    let mut w = zip::ZipWriter::new(std::io::Cursor::new(Vec::new()));
    let opts = zip::write::SimpleFileOptions::default()
        .compression_method(zip::CompressionMethod::Stored);
    w.start_file("a", opts).unwrap();
    w.write_all(b"payload").unwrap();
    let mut data = w.finish().unwrap().into_inner();
    let at = data.windows(7).position(|b| b == b"payload").unwrap();
    data[at] = b'P';
    match extract_zip(&data, 0, "/d", "linux") {
        Ok(ExtractStep::Broken { path, contents, message }) => {
            assert_eq!(path, "/d/a");
            assert_eq!(contents, b"Payload");
            assert_eq!(message, "failed to write /d/a: Invalid checksum");
        }
        _ => panic!("a broken file"),
    }
}

#[test]
fn paths_that_leave_are_passed_over() {
    let entry = |path: &str| ZipEntry {
        path: Some(path.to_string()),
        is_dir: false,
        unix_mode: None,
        contents: vec![1],
        failure: None,
    };
    let written = |path: &str, os: &str| match extract_entry(entry(path), "d", os) {
        ExtractStep::File { path, .. } => Some(path),
        _ => None,
    };
    // A backslash separates on Windows alone.
    assert_eq!(written("x\\y/../../f", "linux"), None);
    assert_eq!(written("x\\y/../../f", "windows").as_deref(), Some("d\\x\\y/../../f"));
    assert_eq!(written("..\\f", "linux").as_deref(), Some("d/..\\f"));
    assert_eq!(written("..\\f", "windows"), None);
    assert_eq!(written("C:f", "windows"), None);
    assert_eq!(written("C:f", "linux").as_deref(), Some("d/C:f"));
    assert_eq!(written("a/../b", "linux").as_deref(), Some("d/a/../b"));
    for bad in ["/f", "..", "a/../../f", "./../f"] {
        assert_eq!(written(bad, "linux"), None, "{bad}");
        assert_eq!(written(bad, "windows"), None, "{bad}");
    }
}

#[test]
fn windows_paths() {
    for (a, b, want) in [
        ("C:\\c", "b", "C:\\c\\b"),
        ("C:\\", "b", "C:\\b"),
        ("C:/c/", "b", "C:/c/b"),
        ("C:", "b", "C:b"),
        ("C:\\c", "\\b", "C:\\b"),
        ("C:\\c", "D:b", "D:b"),
        ("C:\\c", "\\\\s\\h\\b", "\\\\s\\h\\b"),
        ("\\\\s\\h\\c", "\\b", "\\\\s\\h\\b"),
        ("", "b", "b"),
    ] {
        assert_eq!(join_path(a, b, "windows"), want, "{a:?} {b:?}");
    }
    for (p, want) in [
        ("C:\\a.d\\b.sh", Some("sh")),
        ("C:\\a.d\\b", None),
        ("C:\\a\\.sh", None),
        ("C:.sh", None),
        ("C:x.sh\\", Some("sh")),
    ] {
        assert_eq!(extension_of(p, "windows").as_deref(), want, "{p:?}");
    }
    assert_eq!(
        binary_path("C:\\c", "1", "win64", "windows"),
        "C:\\c\\1\\chrome-headless-shell-win64\\chrome-headless-shell.exe"
    );
    assert_eq!(
        cache_root(None, Some("C:\\l".to_string()), "C:\\t", "windows"),
        "C:\\l\\kitewright\\chrome-headless-shell"
    );
}
