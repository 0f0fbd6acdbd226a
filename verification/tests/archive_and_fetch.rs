use mag::archive::{flatten_roots, is_nested_archive, nested_archive_paths};
use mag::fetcher::{extract_mod_file, modrinth_ratelimit, FetcherError};

#[test]
fn recognizes_nested_archive_paths() {
    assert!(is_nested_archive(&String::from("lib/shaded/api.jar")));
    assert!(is_nested_archive(&String::from("top.jar")));
    assert!(!is_nested_archive(&String::from("data/ns/tags/items/a.json")));
    assert!(!is_nested_archive(&String::from("lib/.jar")));
    assert!(!is_nested_archive(&String::from("dir.jar/readme.txt")));
    assert!(!is_nested_archive(&String::from("archive.jar/")));
}

#[test]
fn filters_the_nested_archives_in_order() {
    let files = vec![
        String::from("META-INF/MANIFEST.MF"),
        String::from("libs/a.jar"),
        String::from("data/ns/tags/items/x.json"),
        String::from("libs/b.jar"),
    ];
    assert_eq!(
        nested_archive_paths(&files),
        vec![String::from("libs/a.jar"), String::from("libs/b.jar")]
    );
}

#[test]
fn every_extracted_archive_contributes_one_root() {
    let extracted = vec![
        Some(String::from("/tmp/n0")),
        Some(String::from("/tmp/n1")),
        Some(String::from("/tmp/n2")),
    ];
    let roots = flatten_roots(&extracted, String::from("/tmp/top"));
    assert_eq!(roots.len(), 4);
    assert_eq!(roots[3], "/tmp/top");
    assert_eq!(roots[0], "/tmp/n0");
    assert_eq!(roots[1], "/tmp/n1");
    assert_eq!(roots[2], "/tmp/n2");
}

#[test]
fn a_failed_nested_extraction_is_dropped() {
    let extracted = vec![Some(String::from("/tmp/n0")), None, Some(String::from("/tmp/n2"))];
    let roots = flatten_roots(&extracted, String::from("/tmp/top"));
    assert_eq!(roots, vec![
        String::from("/tmp/n0"),
        String::from("/tmp/n2"),
        String::from("/tmp/top"),
    ]);
}

#[test]
fn no_nested_archives_yield_exactly_one_root() {
    let roots = flatten_roots(&Vec::new(), String::from("/tmp/top"));
    assert_eq!(roots, vec![String::from("/tmp/top")]);
}

#[test]
fn reads_the_rate_limit_headers() {
    let rl = modrinth_ratelimit(
        &Some(String::from("300")),
        &Some(String::from("0")),
        &Some(String::from("42")),
    )
    .unwrap();
    assert!(rl.is_reached());
    assert_eq!(rl.limit, 300);
    assert_eq!(rl.reset, 42);
}

#[test]
fn remaining_requests_mean_the_limit_is_not_reached() {
    let rl = modrinth_ratelimit(
        &Some(String::from("300")),
        &Some(String::from("+17")),
        &Some(String::from("42")),
    )
    .unwrap();
    assert!(!rl.is_reached());
    assert_eq!(rl.remaining, 17);
}

#[test]
fn a_missing_header_means_no_rate_limit_data() {
    match modrinth_ratelimit(&Some(String::from("300")), &None, &Some(String::from("42"))) {
        Err(FetcherError::NoRatelimit) => {},
        _ => panic!("a missing header must report the no-rate-limit condition"),
    }
}

#[test]
fn extracts_the_file_from_a_version_document() {
    let text = "{\"files\": [{\"hashes\": {\"sha512\": \"abc\", \"sha1\": \"de\"}, \
                 \"url\": \"https://example.invalid/api.jar\", \"filename\": \"api.jar\", \
                 \"primary\": true, \"size\": 1024, \"file_type\": null}], \"other\": 1}";
    let doc: serde_json::Value = serde_json::from_str(text).unwrap();
    let info = extract_mod_file(String::from("k2"), &doc).unwrap();
    assert_eq!(info.id, "k2");
    assert_eq!(info.filename, "api.jar");
    assert_eq!(info.url, "https://example.invalid/api.jar");
    assert_eq!(info.sha256, "abc");
}

#[test]
fn a_version_document_without_files_yields_nothing() {
    let doc: serde_json::Value = serde_json::from_str("{\"files\": []}").unwrap();
    assert!(extract_mod_file(String::from("k2"), &doc).is_none());
    let doc: serde_json::Value = serde_json::from_str("{}").unwrap();
    assert!(extract_mod_file(String::from("k2"), &doc).is_none());
}

#[test]
fn a_fractional_size_yields_nothing() {
    let text = "{\"files\": [{\"hashes\": {\"sha512\": \"abc\", \"sha1\": \"de\"}, \
                 \"url\": \"u\", \"filename\": \"f\", \"primary\": true, \"size\": 10.5}]}";
    let doc: serde_json::Value = serde_json::from_str(text).unwrap();
    assert!(extract_mod_file(String::from("k2"), &doc).is_none());
}
