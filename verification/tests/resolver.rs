use grafted::resolver::{first_existing, DylibResolver};

#[test]
fn test_override_resolution() {
    let mut resolver = DylibResolver::new();
    resolver.add_override(
        "/usr/lib/libSystem.B.dylib".into(),
        "/opt/grafted/lib/libSystem.B.so".to_string(),
    );
    let result = resolver.resolve("/usr/lib/libSystem.B.dylib", None, None, &[]);
    assert_eq!(result, Some("/opt/grafted/lib/libSystem.B.so".to_string()));
}

#[test]
fn test_unknown_dylib() {
    let resolver = DylibResolver::new();
    assert!(resolver.resolve("/usr/lib/libFoo.dylib", None, None, &[]).is_none());
}

#[test]
fn later_override_replaces_earlier() {
    let mut resolver = DylibResolver::new();
    resolver.add_override("/usr/lib/libA.dylib".into(), "/one.so".to_string());
    resolver.add_override("/usr/lib/libA.dylib".into(), "/two.so".to_string());
    assert_eq!(resolver.resolve("/usr/lib/libA.dylib", None, None, &[]), Some("/two.so".to_string()));
}

#[test]
fn probe_order_covers_prefixes_and_shim_dirs() {
    let mut resolver = DylibResolver::new();
    resolver.add_shim_dir("/opt/shims".to_string());
    let probes = resolver.probe_paths("@executable_path/../lib/libfoo.dylib", Some("/app/bin/tool"), None, &[]);
    assert_eq!(probes, vec![
        "/app/bin/../lib/libfoo.dylib".to_string(),
        "/opt/shims/libfoo.dylib".to_string(),
        "@executable_path/../lib/libfoo.dylib".to_string(),
    ]);
    let rp = resolver.probe_paths("@rpath/libbar.dylib", None, Some("/libs/libx.dylib"), &["@loader_path".to_string()]);
    assert_eq!(rp[0], "/libs/libbar.dylib".to_string());
}

#[test]
fn existing_file_is_found_in_shim_dir() {
    let mut resolver = DylibResolver::new();
    resolver.add_shim_dir("/".to_string());
    assert_eq!(resolver.resolve("/usr/lib/tmp", None, None, &[]), Some("/tmp".to_string()));
}

#[test]
fn first_existing_picks_first_present_probe() {
    let probes = vec!["/a".to_string(), "/b".to_string(), "/c".to_string()];
    assert_eq!(first_existing(&probes, &vec![false, true, true]), Some("/b".to_string()));
    assert_eq!(first_existing(&probes, &vec![true, true]), Some("/a".to_string()));
    assert_eq!(first_existing(&probes, &vec![false, false, false]), None);
    assert_eq!(first_existing(&probes, &vec![]), None);
}
