use profile_router::cli::{
    chrome_missing_line, config_report, dry_run_report, dry_run_usage, help_lines, parse_command,
    plan_route, profile_listing, register_report, reveal_argument, route_log_line,
    spawn_error_line, unregister_report, Command,
};
use profile_router::config::{Config, Rule};

fn args(list: &[&str]) -> Vec<String> {
    list.iter().map(|a| a.to_string()).collect()
}

fn cfg() -> Config {
    Config {
        default: "Personal".into(),
        chrome_path: None,
        rules: vec![
            Rule { domain: "*.nwpipe.com".into(), path: None, profile: "Work".into() },
            Rule { domain: "github.com".into(), path: None, profile: "Dev".into() },
        ],
    }
}

fn profiles() -> Vec<(String, String)> {
    vec![("Default".into(), "Personal".into()), ("Profile 1".into(), "Work".into())]
}

#[test]
fn urls_route_and_flags_dispatch() {
    assert!(matches!(parse_command(&args(&["https://x.com"])), Command::Route(u) if u == "https://x.com"));
    assert!(matches!(parse_command(&args(&["-x"])), Command::Route(u) if u == "-x"));
    assert!(matches!(parse_command(&args(&[])), Command::Help));
    assert!(matches!(parse_command(&args(&[""])), Command::Help));
    assert!(matches!(parse_command(&args(&["--register"])), Command::Register));
    assert!(matches!(parse_command(&args(&["--unregister"])), Command::Unregister));
    assert!(matches!(parse_command(&args(&["--list-profiles"])), Command::ListProfiles));
    assert!(matches!(parse_command(&args(&["--config", "extra"])), Command::ShowConfig));
    assert!(matches!(parse_command(&args(&["--dry-run"])), Command::DryRun(None)));
    assert!(matches!(
        parse_command(&args(&["--dry-run", "https://a.b"])),
        Command::DryRun(Some(u)) if u == "https://a.b"
    ));
    assert!(matches!(parse_command(&args(&["--what"])), Command::Help));
    assert!(matches!(parse_command(&args(&["--REGISTER"])), Command::Help));
}

#[test]
fn route_plan_resolves_directory() {
    let p = plan_route(&cfg(), "https://mail.nwpipe.com/inbox", &profiles());
    assert_eq!(p.profile, "Work");
    assert_eq!(p.rule_domain.as_deref(), Some("*.nwpipe.com"));
    assert_eq!(p.dir, "Profile 1");
    let p = plan_route(&cfg(), "https://github.com/x", &profiles());
    assert_eq!(p.profile, "Dev");
    // an unknown profile passes through to Chrome as written
    assert_eq!(p.dir, "Dev");
    let p = plan_route(&cfg(), "mailto:a@b.com", &profiles());
    assert_eq!(p.profile, "Personal");
    assert_eq!(p.rule_domain, None);
    assert_eq!(p.dir, "Default");
}

#[test]
fn route_log_lines() {
    let p = plan_route(&cfg(), "https://github.com/x", &profiles());
    assert_eq!(
        route_log_line("https://github.com/x", &p, r"C:\chrome.exe", true),
        r#"url=https://github.com/x rule=github.com profile=Dev dir=Dev chrome="C:\chrome.exe" spawn=ok"#
    );
    let p = plan_route(&cfg(), "https://example.org", &profiles());
    assert_eq!(
        route_log_line("https://example.org", &p, "chrome", false),
        r#"url=https://example.org rule=<default> profile=Personal dir=Default chrome="chrome" spawn=FAILED"#
    );
    let p = plan_route(&cfg(), "https://a.nwpipe.com", &profiles());
    assert_eq!(
        chrome_missing_line("https://a.nwpipe.com", &p),
        "url=https://a.nwpipe.com rule=*.nwpipe.com profile=Work dir=Profile 1 ERROR: chrome.exe not found"
    );
    let p = plan_route(&cfg(), "mailto:x@y.z", &profiles());
    assert_eq!(
        chrome_missing_line("mailto:x@y.z", &p),
        "url=mailto:x@y.z rule=<default> profile=Personal dir=Default ERROR: chrome.exe not found"
    );
    assert_eq!(spawn_error_line("denied"), "spawn error: denied");
}

#[test]
fn dry_run_lines() {
    assert_eq!(
        dry_run_report(&cfg(), &profiles(), "https://Mail.NWPipe.com/x"),
        vec![
            "URL      : https://Mail.NWPipe.com/x",
            "Host     : mail.nwpipe.com",
            "Matched  : *.nwpipe.com",
            "Profile  : Work",
            "Directory: Profile 1",
        ]
    );
    assert_eq!(
        dry_run_report(&cfg(), &[].to_vec(), "not a url"),
        vec![
            "URL      : not a url",
            "Host     : <none>",
            "Matched  : <no rule - using default>",
            "Profile  : Personal",
            "Directory: Personal (unresolved - will pass through to Chrome)",
        ]
    );
    assert_eq!(dry_run_usage(), "Usage: profile-router --dry-run \"https://example.com/...\"");
}

#[test]
fn profile_listing_lines() {
    assert_eq!(
        profile_listing(&profiles()),
        vec![
            "Chrome profiles (use either column as a rule's `profile` value):",
            "  DIRECTORY      DISPLAY NAME",
            "  Default        Personal",
            "  Profile 1      Work",
        ]
    );
    assert_eq!(
        profile_listing(&vec![("A very long directory".to_string(), "X".to_string())])[2],
        "  A very long directory X"
    );
    assert_eq!(
        profile_listing(&vec![]),
        vec!["No Chrome profiles found (is Chrome installed for this user?)."]
    );
}

#[test]
fn help_and_reports() {
    let help = help_lines();
    assert_eq!(help.len(), 9);
    assert_eq!(help[0], "Profile Router - open clicked links in the matching Chrome profile.");
    assert_eq!(help[1], "");
    assert_eq!(help[8], "  profile-router --config         Show and reveal the config file");
    let ok = register_report(r"C:\pr.exe", &Ok(()));
    assert_eq!(ok[0], r#"Registered "Profile Router" (C:\pr.exe) as an available browser."#);
    assert_eq!(ok.len(), 5);
    assert_eq!(
        register_report("x", &Err("access denied".into())),
        vec!["Registration failed: access denied"]
    );
    assert_eq!(
        unregister_report(&Ok(())),
        "Unregistered Profile Router. Set another browser as default in Settings."
    );
    assert_eq!(unregister_report(&Err("oops".into())), "Unregister failed: oops");
    assert_eq!(config_report(r"C:\c.toml"), r"Config file: C:\c.toml");
    assert_eq!(reveal_argument(r"C:\c.toml"), r"/select,C:\c.toml");
}
