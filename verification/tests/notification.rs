use grafted::notification::NotificationCenter;

const OBS: u64 = 0x5000;
const SEL: u64 = 0x6000;

fn name(s: &str) -> Option<String> {
    Some(s.to_string())
}

/// Sends a post and counts the calls the observers get.
fn post(center: &NotificationCenter, n: Option<String>, object: u64) -> usize {
    center.recipients(&n, object).len()
}

#[test]
fn observer_fires_on_matching_name() {
    let mut center = NotificationCenter::new();
    center.add_observer(OBS, SEL, name("NSPasteboardDidChangeNotification"), 0);
    let count = post(&center, name("NSPasteboardDidChangeNotification"), 0);
    assert_eq!(count, 1, "observer should fire exactly once");
}

#[test]
fn observer_does_not_fire_on_different_name() {
    let mut center = NotificationCenter::new();
    center.add_observer(OBS, SEL, name("NSApplicationDidBecomeActiveNotification"), 0);
    let count = post(&center, name("SomeOtherNotification"), 0);
    assert_eq!(count, 0, "mismatched name must not fire");
}

#[test]
fn nil_name_is_wildcard() {
    let mut center = NotificationCenter::new();
    center.add_observer(OBS, SEL, None, 0);
    let count = post(&center, name("RandomEvent"), 0) + post(&center, name("AnotherEvent"), 0);
    assert_eq!(count, 2, "nil name must match every post");
}

#[test]
fn remove_observer_stops_firing() {
    let mut center = NotificationCenter::new();
    center.add_observer(OBS, SEL, name("Event"), 0);
    let mut count = post(&center, name("Event"), 0);
    center.remove_observer(OBS);
    count += post(&center, name("Event"), 0);
    assert_eq!(count, 1, "removed observer must not fire on subsequent posts");
}

#[test]
fn objects_narrow_who_hears() {
    let mut center = NotificationCenter::new();
    center.add_observer(1, 10, name("E"), 0x100);
    center.add_observer(2, 20, name("E"), 0);
    assert_eq!(center.recipients(&name("E"), 0x100), vec![(1, 10), (2, 20)]);
    assert_eq!(center.recipients(&name("E"), 0x200), vec![(2, 20)]);
    assert_eq!(center.recipients(&name("E"), 0), vec![(1, 10), (2, 20)]);
    assert_eq!(center.recipients(&None, 0), Vec::<(u64, u64)>::new());
}

#[test]
fn removal_by_name_and_object_is_selective() {
    let mut center = NotificationCenter::new();
    center.add_observer(1, 10, name("A"), 0x100);
    center.add_observer(1, 11, name("B"), 0x100);
    center.add_observer(1, 12, name("A"), 0x200);
    center.add_observer(2, 20, name("A"), 0x100);
    center.remove_observer_matching(1, &name("A"), 0x100);
    assert_eq!(center.recipients(&name("A"), 0x100), vec![(2, 20)]);
    assert_eq!(center.recipients(&name("A"), 0x200), vec![(1, 12)]);
    assert_eq!(center.recipients(&name("B"), 0x100), vec![(1, 11)]);
    center.remove_observer_matching(1, &None, 0);
    assert_eq!(center.recipients(&name("B"), 0), Vec::<(u64, u64)>::new());
    assert_eq!(center.recipients(&name("A"), 0), vec![(2, 20)]);
}
