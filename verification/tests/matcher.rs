use profile_router::config::{Config, Rule};
use profile_router::matcher::{
    choose_profile, host_of, matches_normalized, path_matches, rule_matches,
};

fn rule(domain: &str, path: Option<&str>, profile: &str) -> Rule {
    Rule { domain: domain.into(), path: path.map(String::from), profile: profile.into() }
}

fn cfg() -> Config {
    Config {
        default: "Personal".into(),
        chrome_path: None,
        rules: vec![rule("*.nwpipe.com", None, "Work"), rule("github.com", None, "Dev")],
    }
}

#[test]
fn host_extraction() {
    assert_eq!(host_of("https://GitHub.com/x/y?z=1"), Some("github.com".into()));
    assert_eq!(host_of("http://sub.example.com."), Some("sub.example.com".into()));
    assert_eq!(host_of("mailto:a@b.com"), None);
    assert_eq!(host_of("not a url"), None);
}

#[test]
fn exact_match() {
    assert!(profile_router::matcher::matches("github.com", "github.com"));
    assert!(!profile_router::matcher::matches("github.com", "gist.github.com"));
}

#[test]
fn wildcard_matches_apex_and_sub() {
    assert!(profile_router::matcher::matches("*.nwpipe.com", "nwpipe.com"));
    assert!(profile_router::matcher::matches("*.nwpipe.com", "mail.nwpipe.com"));
    assert!(profile_router::matcher::matches("*.nwpipe.com", "a.b.nwpipe.com"));
    assert!(!profile_router::matcher::matches("*.nwpipe.com", "nwpipe.com.evil.com"));
    assert!(!profile_router::matcher::matches("*.nwpipe.com", "othernwpipe.com"));
}

#[test]
fn first_rule_wins() {
    let c = cfg();
    assert_eq!(choose_profile(&c, "https://mail.nwpipe.com/x").0, "Work");
    assert_eq!(choose_profile(&c, "https://github.com/x").0, "Dev");
}

#[test]
fn no_match_uses_default() {
    let c = cfg();
    assert_eq!(choose_profile(&c, "https://example.org").0, "Personal");
    // schemes without a host still fall back rather than erroring
    assert_eq!(choose_profile(&c, "mailto:a@b.com").0, "Personal");
}

#[test]
fn pattern_is_trimmed_and_case_folded() {
    assert!(profile_router::matcher::matches("  GitHub.COM \t", "github.com"));
    assert!(profile_router::matcher::matches(" *.NWPIPE.com", "mail.nwpipe.com"));
    // the host is compared without case too
    assert!(profile_router::matcher::matches("github.com", "GitHub.com"));
    assert!(profile_router::matcher::matches("*.NWPipe.com", "MAIL.nwpipe.COM"));
    assert!(!profile_router::matcher::matches("github.com", "GitHub.co"));
}

#[test]
fn normalized_pattern_matching() {
    assert!(matches_normalized("*.x.org", "x.org"));
    assert!(matches_normalized("*.x.org", "a.x.org"));
    assert!(!matches_normalized("*.x.org", "ax.org"));
    assert!(!matches_normalized("*.x.org", ".org"));
    assert!(matches_normalized("x.org", "x.org"));
    assert!(!matches_normalized("X.org", "x.org"));
    // a bare "*." covers only hosts ending in a dot and the empty host
    assert!(matches_normalized("*.", ""));
    assert!(!matches_normalized("*.", "a"));
}

#[test]
fn wildcard_does_not_cover_lookalikes() {
    assert!(!profile_router::matcher::matches("*.example.com", "example.com.attacker.net"));
    assert!(!profile_router::matcher::matches("*.example.com", "notexample.com"));
    assert!(profile_router::matcher::matches("*.example.com", "deep.sub.example.com"));
}

#[test]
fn host_is_lowercased_and_dots_stripped() {
    assert_eq!(host_of("HTTPS://WWW.Example.COM../a"), Some("www.example.com".into()));
    assert_eq!(host_of("https://example.com:8443/x"), Some("example.com".into()));
    assert_eq!(host_of("data:text/plain,hi"), None);
}

#[test]
fn path_patterns() {
    assert!(path_matches("/TeeJS/*", "/TeeJS"));
    assert!(path_matches("/TeeJS/*", "/TeeJS/repo"));
    assert!(path_matches("/TeeJS/*", "/TeeJS/"));
    assert!(!path_matches("/TeeJS/*", "/TeeJSX"));
    assert!(!path_matches("/TeeJS/*", "/Other/TeeJS"));
    assert!(path_matches("/Tee*", "/TeeJS/x"));
    assert!(path_matches("/Tee*", "/Tee"));
    assert!(!path_matches("/Tee*", "/Te"));
    assert!(path_matches("/exact", "/exact"));
    assert!(!path_matches("/exact", "/exact/more"));
}

#[test]
fn rule_with_path_needs_both() {
    let r = rule("github.com", Some("/TeeJS/*"), "Dev");
    assert!(rule_matches(&r, "github.com", "/TeeJS/x"));
    assert!(!rule_matches(&r, "github.com", "/other"));
    assert!(!rule_matches(&r, "gitlab.com", "/TeeJS/x"));
    let plain = rule("github.com", None, "Personal");
    assert!(rule_matches(&plain, "github.com", "/anything"));
}

#[test]
fn path_rules_route_before_domain_rule() {
    let c = Config {
        default: "Fallback".into(),
        chrome_path: None,
        rules: vec![
            rule("github.com", Some("/TeeJS/*"), "Dev"),
            rule("github.com", None, "Personal"),
        ],
    };
    assert_eq!(choose_profile(&c, "https://github.com/TeeJS/repo").0, "Dev");
    assert_eq!(choose_profile(&c, "https://github.com/TeeJS").0, "Dev");
    assert_eq!(choose_profile(&c, "https://github.com/someone/else").0, "Personal");
    assert_eq!(choose_profile(&c, "https://example.com/TeeJS").0, "Fallback");
    let (_, matched) = choose_profile(&c, "https://github.com/TeeJS/repo");
    assert_eq!(matched.map(|r| r.profile.as_str()), Some("Dev"));
    assert!(choose_profile(&c, "not a url").1.is_none());
}

#[test]
fn rule_order_stability() {
    let mut c = cfg();
    c.rules.push(rule("*.nwpipe.com", None, "Later"));
    assert_eq!(choose_profile(&c, "https://mail.nwpipe.com/x").0, "Work");
    c.rules.insert(0, rule("example.org", None, "Other"));
    assert_eq!(choose_profile(&c, "https://mail.nwpipe.com/x").0, "Work");
    assert_eq!(choose_profile(&c, "https://example.org/").0, "Other");
}
