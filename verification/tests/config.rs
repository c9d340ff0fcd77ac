use profile_router::config::{Config, EXAMPLE};

#[test]
fn built_in_default() {
    let c = Config::default();
    assert_eq!(c.default, "Default");
    assert!(c.chrome_path.is_none());
    assert!(c.rules.is_empty());
}

#[test]
fn example_reads_back_as_the_default() {
    let v: toml::Value = toml::from_str(EXAMPLE).expect("the example is valid TOML");
    let t = v.as_table().unwrap();
    assert_eq!(t.get("default").and_then(|d| d.as_str()), Some(Config::default().default.as_str()));
    assert!(t.get("rule").is_none());
    assert!(t.get("chrome_path").is_none());
    assert_eq!(t.len(), 1);
}
