use cerberus_agent::serve::{rel_path_inside, route_request, Reply};
use cerberus_agent::probe::{format_duration, probe_meta};
use cerberus_agent::serve::{content_range, parse_range, plan_range, request_target, RangePlan};

#[test]
fn range_headers() {
    assert_eq!(parse_range("bytes=0-99"), Some((0, 99)));
    assert_eq!(parse_range("bytes=100-"), Some((100, u64::MAX)));
    assert_eq!(parse_range("bytes= 5 - 7 "), Some((5, 7)));
    assert_eq!(parse_range("bytes=5-x"), Some((5, u64::MAX)));
    assert_eq!(parse_range("bytes=5-7-9"), Some((5, 7)));
    assert_eq!(parse_range("bytes=-5"), None);
    assert_eq!(parse_range("items=0-5"), None);
    assert_eq!(parse_range("bytes=18446744073709551616-"), None);
}

#[test]
fn range_plans() {
    assert_eq!(plan_range(Some("bytes=0-99"), 1000), RangePlan::Partial { start: 0, end: 99 });
    assert_eq!(plan_range(Some("bytes=900-"), 1000), RangePlan::Partial { start: 900, end: 999 });
    assert_eq!(plan_range(Some("bytes=1000-"), 1000), RangePlan::Full);
    assert_eq!(plan_range(Some("bytes=0-5"), 0), RangePlan::Full);
    assert_eq!(plan_range(Some("nonsense"), 10), RangePlan::Full);
    assert_eq!(plan_range(None, 10), RangePlan::Full);
    assert_eq!(content_range(900, 999, 1000), "bytes 900-999/1000");
}

#[test]
fn request_targets() {
    assert_eq!(request_target("/"), "");
    assert_eq!(request_target("//Persona/My%20Song.mp3"), "Persona/My Song.mp3");
    assert_eq!(request_target("/a+b.mp3"), "a+b.mp3");
    assert_eq!(request_target("/%FF"), "");
    assert_eq!(request_target("/caf%C3%A9.mp3"), "café.mp3");
}

#[test]
fn durations() {
    assert_eq!(format_duration(3, 5), "3:05");
    assert_eq!(format_duration(0, 59), "0:59");
    assert_eq!(format_duration(125, 0), "125:00");
}

#[test]
fn probe_reports() {
    let out = br#"{"format":{"duration":"215.4","tags":{"ARTIST":"El Rey","album":"Highway","track":3}}}"#;
    let (d, tags) = probe_meta(out);
    assert_eq!(d.as_deref(), Some("215.4"));
    assert_eq!(tags.get(&"artist".chars().collect()), Some("El Rey".to_string()));
    assert_eq!(tags.get(&"album".chars().collect()), Some("Highway".to_string()));
    assert_eq!(tags.get(&"track".chars().collect()), None);
    let (d, tags) = probe_meta(b"not json");
    assert!(d.is_none());
    assert_eq!(tags.get(&"album".chars().collect()), None);
    let (d, _) = probe_meta(br#"{"format":{"duration":12}}"#);
    assert!(d.is_none());
}

#[test]
fn request_routing() {
    assert_eq!(route_request("", false, false, 0, None), Reply::Banner);
    assert_eq!(route_request("x.mp3", false, false, 0, None), Reply::NotFound);
    assert_eq!(route_request("x.mp3", false, true, 10, None), Reply::Serve(RangePlan::Full));
    assert_eq!(
        route_request("x.mp3", false, true, 10, Some("bytes=2-")),
        Reply::Serve(RangePlan::Partial { start: 2, end: 9 })
    );
}

#[test]
fn nothing_outside_the_library_is_served() {
    assert_eq!(request_target("/..%2Fsecret.txt"), "../secret.txt");
    for windows in [false, true] {
        assert_eq!(route_request("../secret.txt", windows, true, 10, None), Reply::NotFound);
        assert_eq!(route_request("a/../../b.mp3", windows, true, 10, None), Reply::NotFound);
        assert_eq!(route_request("/etc/passwd", windows, true, 10, None), Reply::NotFound);
        assert_eq!(
            route_request("Persona/My Song.mp3", windows, true, 10, None),
            Reply::Serve(RangePlan::Full)
        );
    }
    assert_eq!(route_request("..\\x.mp3", true, true, 10, None), Reply::NotFound);
    assert_eq!(route_request("C:x.mp3", true, true, 10, None), Reply::NotFound);
}

#[test]
fn windows_only_names_are_plain_names_elsewhere() {
    assert_eq!(route_request("..\\x.mp3", false, true, 10, None), Reply::Serve(RangePlan::Full));
    assert_eq!(route_request("C:x.mp3", false, true, 10, None), Reply::Serve(RangePlan::Full));
    assert!(rel_path_inside("\\x", false));
    assert!(rel_path_inside("a\\..\\b", false));
    assert!(!rel_path_inside("a\\..\\b", true));
}

#[test]
fn relative_paths_inside() {
    for windows in [false, true] {
        assert!(rel_path_inside("a/b/c.mp3", windows));
        assert!(rel_path_inside("x.mp3", windows));
        assert!(rel_path_inside("a/./b..c/...mp3", windows));
        assert!(rel_path_inside("", windows));
        assert!(!rel_path_inside("../x.mp3", windows));
        assert!(!rel_path_inside("a/..", windows));
        assert!(!rel_path_inside("/abs.mp3", windows));
    }
    assert!(!rel_path_inside("\\server\\x", true));
    assert!(!rel_path_inside("D:\\music\\x.mp3", true));
    assert!(rel_path_inside("D:\\music\\x.mp3", false));
}
