use grafted::pasteboard::{
    choose_backend, pasteboard_types, read_command, string_for_type, which_script, write_command, Backend,
    Pasteboard,
};

#[test]
fn types_contains_string_type() {
    let types = pasteboard_types();
    assert!(!types.is_empty(), "types array must not be null");
    assert_eq!(types, vec!["public.utf8-plain-text".to_string()]);
}

#[test]
fn backend_preference() {
    assert_eq!(choose_backend(true, true, true, true, true), Backend::Wayland);
    assert_eq!(choose_backend(true, true, false, true, true), Backend::X11Xclip);
    assert_eq!(choose_backend(false, true, true, false, true), Backend::X11Xsel);
    assert_eq!(choose_backend(false, false, false, false, false), Backend::Unavailable);
}

#[test]
fn command_lines() {
    let s = |v: &[&str]| v.iter().map(|x| x.to_string()).collect::<Vec<String>>();
    assert_eq!(read_command(Backend::Wayland), Some(s(&["wl-paste", "--no-newline"])));
    assert_eq!(read_command(Backend::X11Xclip), Some(s(&["xclip", "-selection", "clipboard", "-o"])));
    assert_eq!(read_command(Backend::X11Xsel), Some(s(&["xsel", "--clipboard", "--output"])));
    assert_eq!(read_command(Backend::Unavailable), None);
    assert_eq!(write_command(Backend::Wayland), Some(s(&["wl-copy"])));
    assert_eq!(write_command(Backend::X11Xclip), Some(s(&["xclip", "-selection", "clipboard", "-i"])));
    assert_eq!(write_command(Backend::X11Xsel), Some(s(&["xsel", "--clipboard", "--input"])));
    assert_eq!(write_command(Backend::Unavailable), None);
    assert_eq!(which_script("xclip"), "command -v xclip >/dev/null 2>&1".to_string());
}

#[test]
fn string_for_type_skips_empty() {
    assert_eq!(string_for_type(Some("hi".to_string())), Some("hi".to_string()));
    assert_eq!(string_for_type(Some(String::new())), None);
    assert_eq!(string_for_type(None), None);
}

#[test]
fn change_count_counts_each_change_once() {
    let mut pb = Pasteboard::new(Some("start".to_string()));
    assert_eq!(pb.change_count(), 0);
    assert!(!pb.poll(Some("start".to_string())));
    assert_eq!(pb.change_count(), 0);
    assert!(pb.poll(Some("other".to_string())));
    assert_eq!(pb.change_count(), 1);
    assert!(!pb.poll(Some("other".to_string())));
    assert!(pb.wrote("mine".to_string(), true));
    assert_eq!(pb.change_count(), 2);
    assert!(!pb.poll(Some("mine".to_string())), "own write must not be counted twice");
    assert_eq!(pb.change_count(), 2);
    assert!(!pb.wrote("failed".to_string(), false));
    assert_eq!(pb.change_count(), 2);
    assert_eq!(pb.cleared(), 3);
    assert!(!pb.poll(Some(String::new())));
    assert!(pb.poll(None));
    assert_eq!(pb.declared(), 5);
}
