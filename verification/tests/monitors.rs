use procmon_capture::monitors::{
    category_selected, parse_monitors, EventClass, MonitorFlags, MonitorSource,
};

fn names(list: &[&str]) -> Vec<String> {
    list.iter().map(|s| s.to_string()).collect()
}

fn flags(list: &[MonitorSource]) -> MonitorFlags {
    let mut f = MonitorFlags::empty();
    for s in list {
        f.insert(*s);
    }
    f
}

#[test]
fn no_names_select_every_source() {
    assert_eq!(parse_monitors(&[]), MonitorFlags::all());
}

#[test]
fn unknown_names_alone_select_every_source() {
    assert_eq!(parse_monitors(&names(&["disk"])), MonitorFlags::all());
    assert_eq!(parse_monitors(&names(&["", "processes", " file"])), MonitorFlags::all());
}

#[test]
fn each_name_and_short_form_selects_its_source() {
    for (list, source) in [
        (["process", "proc"], MonitorSource::Process),
        (["file", "filesystem"], MonitorSource::File),
        (["registry", "reg"], MonitorSource::Registry),
        (["network", "net"], MonitorSource::Network),
    ] {
        for n in list {
            assert_eq!(parse_monitors(&names(&[n])), flags(&[source]));
        }
    }
}

#[test]
fn names_are_case_insensitive() {
    assert_eq!(
        parse_monitors(&names(&["NeT", "PROCESS"])),
        flags(&[MonitorSource::Network, MonitorSource::Process])
    );
    assert_eq!(parse_monitors(&names(&["\u{212a}eg", "REG"])), flags(&[MonitorSource::Registry]));
}

#[test]
fn order_repetition_and_unknown_names_do_not_matter() {
    let expected = flags(&[MonitorSource::File, MonitorSource::Registry]);
    assert_eq!(parse_monitors(&names(&["file", "reg"])), expected);
    assert_eq!(parse_monitors(&names(&["reg", "file", "what", "REGISTRY"])), expected);
}

#[test]
fn flags_hold_what_was_put_in() {
    let mut f = MonitorFlags::empty();
    assert!(f.is_empty());
    f.insert(MonitorSource::File);
    assert!(!f.is_empty());
    assert!(f.contains(MonitorSource::File));
    assert!(!f.contains(MonitorSource::Process));
    assert!(MonitorFlags::all().contains(MonitorSource::Process));
    assert!(MonitorFlags::all().contains(MonitorSource::Network));
}

#[test]
fn classes_follow_their_sources() {
    let net = flags(&[MonitorSource::Network]);
    assert!(category_selected(EventClass::Network, net));
    assert!(!category_selected(EventClass::Process, net));
    assert!(!category_selected(EventClass::File, net));
    assert!(!category_selected(EventClass::Registry, net));
    let none = MonitorFlags::empty();
    assert!(category_selected(EventClass::Profiling, none));
    assert!(category_selected(EventClass::Other, none));
    for class in [EventClass::Process, EventClass::File, EventClass::Registry] {
        assert!(category_selected(class, MonitorFlags::all()));
        assert!(!category_selected(class, none));
    }
}
