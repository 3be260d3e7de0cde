use starworld_bridge::cache::{AssetCache, FetchPlan};

fn cache() -> AssetCache {
    AssetCache::new(String::from("/tmp/assets"))
}

#[test]
fn miss_plans_a_fetch() {
    let mut c = cache();
    let url = "https://example.com/model.glb";
    let dest = c.dest_path(url);
    let temp = c.temp_path(url);
    match c.plan_fetch(url, false) {
        FetchPlan::Fetch { dest: d, temp: t } => {
            assert_eq!(d, dest);
            assert_eq!(t, temp);
        }
        _ => panic!("expected a fetch plan on a cold cache"),
    }
}

#[test]
fn concurrent_requests_deduplicate() {
    let mut c = cache();
    let url = "https://example.com/model.glb";
    // first caller begins the download
    assert!(matches!(c.plan_fetch(url, false), FetchPlan::Fetch { .. }));
    // a second caller, while the first has not completed, must wait —
    // whatever it happens to see on disk — so no second fetch is issued
    assert!(matches!(c.plan_fetch(url, false), FetchPlan::Wait));
    assert!(matches!(c.plan_fetch(url, true), FetchPlan::Wait));
    // the first download completes
    let resolved = c.finish_fetch(url, true);
    assert_eq!(resolved.as_deref(), Some(c.dest_path(url).as_str()));
    // a third caller gets the cached path with no state change
    match c.plan_fetch(url, true) {
        FetchPlan::Use { path } => assert_eq!(path, c.dest_path(url)),
        _ => panic!("expected a cache hit after completion"),
    }
}

#[test]
fn failed_download_evicts_and_retries() {
    let mut c = cache();
    let url = "https://example.com/model.glb";
    assert!(matches!(c.plan_fetch(url, false), FetchPlan::Fetch { .. }));
    // the download fails: the entry is evicted and nothing is returned
    assert_eq!(c.finish_fetch(url, false), None);
    // a later request retries from scratch
    assert!(matches!(c.plan_fetch(url, false), FetchPlan::Fetch { .. }));
}

#[test]
fn temp_path_never_equals_canonical_path() {
    let c = cache();
    for url in [
        "https://example.com/model.glb",
        "https://example.com/model.gltf",
        "https://example.com/avatar.vrm",
        "https://example.com/unrecognized",
        "",
    ] {
        assert_ne!(c.temp_path(url), c.dest_path(url));
    }
}

#[test]
fn fetch_plan_carries_distinct_paths() {
    let mut c = cache();
    match c.plan_fetch("https://example.com/a.gltf", false) {
        FetchPlan::Fetch { dest, temp } => {
            assert_ne!(dest, temp);
            assert!(dest.starts_with("/tmp/assets/"));
            assert!(temp.starts_with("/tmp/assets/"));
            assert!(dest.ends_with(".gltf"));
            assert!(temp.ends_with(".tmp"));
        }
        _ => panic!("expected a fetch plan"),
    }
}

#[test]
fn file_already_on_disk_is_recorded_as_hit() {
    let mut c = cache();
    let url = "https://example.com/model.glb";
    match c.plan_fetch(url, true) {
        FetchPlan::Use { path } => assert_eq!(path, c.dest_path(url)),
        _ => panic!("expected a hit when the file is on disk"),
    }
    // and stays a hit
    assert!(matches!(c.plan_fetch(url, true), FetchPlan::Use { .. }));
}

#[test]
fn distinct_urls_get_distinct_cache_paths() {
    let c = cache();
    let a = c.dest_path("https://example.com/model.glb");
    let b = c.dest_path("https://example.com/other.glb");
    assert_ne!(a, b);
}

#[test]
fn clear_entries_forgets_state() {
    let mut c = cache();
    let url = "https://example.com/model.glb";
    assert!(matches!(c.plan_fetch(url, false), FetchPlan::Fetch { .. }));
    c.clear_entries();
    // no longer marked in flight: a new request plans a fresh fetch
    assert!(matches!(c.plan_fetch(url, false), FetchPlan::Fetch { .. }));
}
