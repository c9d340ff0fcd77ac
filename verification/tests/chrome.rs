use profile_router::chrome::{parse_json, profiles_from_state, profiles_from_text, resolve_profile_dir, Json};

fn s(x: &str) -> String {
    x.to_string()
}

fn obj(fields: Vec<(&str, Json)>) -> Json {
    Json::Object(fields.into_iter().map(|(k, v)| (s(k), v)).collect())
}

fn state(cache: Json) -> Json {
    obj(vec![("profile", obj(vec![("info_cache", cache)]))])
}

fn pairs(list: &[(&str, &str)]) -> Vec<(String, String)> {
    list.iter().map(|(a, b)| (s(a), s(b))).collect()
}

#[test]
fn profiles_are_read_and_sorted_by_directory() {
    let st = state(obj(vec![
        ("Profile 2", obj(vec![("name", Json::Str(s("Dev")))])),
        ("Default", obj(vec![("name", Json::Str(s("Personal")))])),
        ("Profile 1", obj(vec![("name", Json::Str(s("Work")))])),
    ]));
    assert_eq!(
        profiles_from_state(&st),
        pairs(&[("Default", "Personal"), ("Profile 1", "Work"), ("Profile 2", "Dev")])
    );
}

#[test]
fn display_name_falls_back_to_directory() {
    let st = state(obj(vec![
        ("Profile 3", obj(vec![("name", Json::Number(s("7")))])),
        ("Profile 4", obj(vec![])),
        ("Profile 5", Json::Null),
    ]));
    assert_eq!(
        profiles_from_state(&st),
        pairs(&[("Profile 3", "Profile 3"), ("Profile 4", "Profile 4"), ("Profile 5", "Profile 5")])
    );
}

#[test]
fn missing_cache_gives_no_profiles() {
    assert!(profiles_from_state(&Json::Null).is_empty());
    assert!(profiles_from_state(&obj(vec![("profile", Json::Bool(true))])).is_empty());
    assert!(profiles_from_state(&state(Json::Array(vec![]))).is_empty());
    assert!(profiles_from_state(&obj(vec![])).is_empty());
}

#[test]
fn sort_is_by_code_point_and_stable() {
    let st = state(obj(vec![
        ("b", obj(vec![("name", Json::Str(s("first b")))])),
        ("B", obj(vec![])),
        ("a", obj(vec![])),
        ("b", obj(vec![("name", Json::Str(s("second b")))])),
    ]));
    assert_eq!(
        profiles_from_state(&st),
        pairs(&[("B", "B"), ("a", "a"), ("b", "first b"), ("b", "second b")])
    );
}

#[test]
fn directory_name_wins_over_display_name() {
    let list = pairs(&[("Default", "Profile 1"), ("Profile 1", "Work")]);
    // "profile 1" is a directory name (case aside): it passes through as written
    assert_eq!(resolve_profile_dir(&list, "profile 1"), Some(s("profile 1")));
    assert_eq!(resolve_profile_dir(&list, "WORK"), Some(s("Profile 1")));
    assert_eq!(resolve_profile_dir(&list, "default"), Some(s("default")));
    assert_eq!(resolve_profile_dir(&list, "Nope"), None);
    assert_eq!(resolve_profile_dir(&[].to_vec(), "Work"), None);
}

#[test]
fn first_display_match_wins() {
    let list = pairs(&[("Profile 2", "Work"), ("Profile 7", "work")]);
    assert_eq!(resolve_profile_dir(&list, "Work"), Some(s("Profile 2")));
}

#[test]
fn case_folding_is_ascii_only() {
    let list = pairs(&[("Profile 1", "Ärger")]);
    assert_eq!(resolve_profile_dir(&list, "ärger"), None);
    assert_eq!(resolve_profile_dir(&list, "äRGER"), None);
    assert_eq!(resolve_profile_dir(&list, "ÄrGeR"), Some(s("Profile 1")));
}

#[test]
fn distinct_directories_come_out_strictly_ordered() {
    let st = state(obj(vec![
        ("Profile 10", obj(vec![])),
        ("Default", obj(vec![])),
        ("Profile 2", obj(vec![])),
    ]));
    let dirs: Vec<String> = profiles_from_state(&st).into_iter().map(|p| p.0).collect();
    assert_eq!(dirs, vec![s("Default"), s("Profile 10"), s("Profile 2")]);
    assert!(dirs.windows(2).all(|w| w[0] < w[1]));
}

#[test]
fn profiles_read_from_local_state_text() {
    let text = r#"{"profile": {"info_cache": {
        "Profile 1": {"name": "Work", "avatar": 3},
        "Default": {"name": "Personal"},
        "Profile 2": {"name": 7},
        "Profile 1": {"name": "Work again"}
    }}, "other": [1, 2.5, null, true]}"#;
    assert_eq!(
        profiles_from_text(text),
        pairs(&[("Default", "Personal"), ("Profile 1", "Work again"), ("Profile 2", "Profile 2")])
    );
    assert!(profiles_from_text("not json").is_empty());
    assert!(profiles_from_text("").is_empty());
    assert!(profiles_from_text("{}").is_empty());
    assert!(profiles_from_text(r#"{"profile": {"info_cache": []}}"#).is_empty());
}

#[test]
fn parsed_objects_name_each_member_once() {
    match parse_json(r#"{"b": 1, "a": {"x": "y"}, "b": 2}"#) {
        Some(Json::Object(fields)) => {
            let names: Vec<&str> = fields.iter().map(|(k, _)| k.as_str()).collect();
            assert_eq!(names, vec!["a", "b"]);
            assert!(matches!(&fields[1].1, Json::Number(n) if n == "2"));
        }
        _ => panic!("an object was expected"),
    }
    assert!(parse_json("[1,").is_none());
}
