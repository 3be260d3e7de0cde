use starworld_bridge::naming::{
    cache_file_name, extension_for, has_suffix, hex_string, str_eq, temp_file_name, url_hash,
};

#[test]
fn test_url_hash() {
    let hash1 = url_hash("https://example.com/model.glb");
    let hash2 = url_hash("https://example.com/model.glb");
    let hash3 = url_hash("https://example.com/other.glb");

    assert_eq!(hash1, hash2);
    assert_ne!(hash1, hash3);
}

#[test]
fn url_hash_exact_small() {
    assert_eq!(url_hash("a:b"), "3_b_a");
}

#[test]
fn url_hash_exact_model_url() {
    assert_eq!(
        url_hash("https://example.com/model.glb"),
        "1d_blg.ledom_moc.elpmaxe___sptth"
    );
}

#[test]
fn url_hash_window_is_bounded() {
    // 40 identical characters: the stem keeps the hex length and only a
    // 32-character window of the reversed tail.
    let url = "aaaaaaaaaaaaaaaaaaaaaaaaaaaaaaaaaaaaaaaa";
    assert_eq!(url.len(), 40);
    let h = url_hash(url);
    // hex(40) = "28", underscore, then 32 'a's.
    assert_eq!(h, format!("28_{}", "a".repeat(32)));
}

#[test]
fn hex_string_exact_values() {
    assert_eq!(hex_string(0), "0");
    assert_eq!(hex_string(9), "9");
    assert_eq!(hex_string(10), "a");
    assert_eq!(hex_string(15), "f");
    assert_eq!(hex_string(16), "10");
    assert_eq!(hex_string(29), "1d");
    assert_eq!(hex_string(255), "ff");
    assert_eq!(hex_string(256), "100");
}

#[test]
fn extension_recognized() {
    let (e, known) = extension_for("http://x/a.glb");
    assert_eq!(e, "glb");
    assert!(known);
    let (e, known) = extension_for("http://x/a.gltf");
    assert_eq!(e, "gltf");
    assert!(known);
    let (e, known) = extension_for("http://x/a.vrm");
    assert_eq!(e, "vrm");
    assert!(known);
}

#[test]
fn extension_fallback() {
    let (e, known) = extension_for("http://x/archive.zip");
    assert_eq!(e, "glb");
    assert!(!known);
}

#[test]
fn suffix_checks() {
    assert!(has_suffix("model.glb", ".glb"));
    assert!(!has_suffix("model.glbx", ".glb"));
    assert!(!has_suffix("lb", ".glb"));
    assert!(has_suffix("anything", ""));
}

#[test]
fn cache_and_temp_names_differ() {
    let url = "https://example.com/model.glb";
    let canon = cache_file_name(url);
    let temp = temp_file_name(url);
    assert!(canon.ends_with(".glb"));
    assert!(temp.ends_with(".tmp"));
    assert_ne!(canon, temp);
    // same stem on both sides of the extension
    assert_eq!(canon.trim_end_matches("glb"), temp.trim_end_matches("tmp"));
}

#[test]
fn str_eq_by_contents() {
    let a = String::from("abc");
    let b = String::from("abc");
    assert!(str_eq(a.as_str(), b.as_str()));
    assert!(!str_eq("abc", "abd"));
    assert!(!str_eq("abc", "ab"));
    assert!(str_eq("", ""));
}
