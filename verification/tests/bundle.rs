use grafted::bundle::{find_app_bundle, main_bundle_path, resource_path};

#[test]
fn executable_inside_app_bundle() {
    assert_eq!(
        find_app_bundle("/Applications/Foo.app/Contents/MacOS/Foo"),
        Some("/Applications/Foo.app".to_string())
    );
}

#[test]
fn bundle_found_at_most_five_levels_up() {
    assert_eq!(find_app_bundle("/x.app/a/b/c/d/exe"), Some("/x.app".to_string()));
    assert_eq!(find_app_bundle("/x.app/a/b/c/d/e/exe"), None);
}

#[test]
fn plain_executable_has_no_bundle() {
    assert_eq!(find_app_bundle("/usr/bin/true"), None);
    assert_eq!(find_app_bundle(""), None);
    assert_eq!(main_bundle_path("/usr/bin/true"), ".".to_string());
    assert_eq!(main_bundle_path("/A.app/Contents/MacOS/A"), "/A.app".to_string());
}

#[test]
fn resources_live_under_contents() {
    assert_eq!(resource_path("/A.app"), "/A.app/Contents/Resources".to_string());
}
