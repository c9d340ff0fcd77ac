use profile_router::register::{registration_entries, removal, APP_ID, PROGID};

#[test]
fn registration_writes_browser_keys_in_order() {
    let exe = r"C:\Tools\profile-router.exe";
    let got: Vec<(String, String, String)> = registration_entries(exe)
        .into_iter()
        .map(|e| (e.key, e.name, e.value))
        .collect();
    let client = r"Software\Clients\StartMenuInternet\ProfileRouter";
    let caps = r"Software\Clients\StartMenuInternet\ProfileRouter\Capabilities";
    let icon = r"C:\Tools\profile-router.exe,0";
    let want: Vec<(String, String, String)> = vec![
        (client, "", "Profile Router"),
        (r"Software\Clients\StartMenuInternet\ProfileRouter\DefaultIcon", "", icon),
        (
            r"Software\Clients\StartMenuInternet\ProfileRouter\shell\open\command",
            "",
            r#""C:\Tools\profile-router.exe""#,
        ),
        (caps, "ApplicationName", "Profile Router"),
        (caps, "ApplicationDescription", "Routes links to the matching Chrome profile by domain"),
        (caps, "ApplicationIcon", icon),
        (&format!(r"{caps}\StartMenu"), "StartMenuInternet", "ProfileRouter"),
        (&format!(r"{caps}\URLAssociations"), "http", "ProfileRouterURL"),
        (&format!(r"{caps}\URLAssociations"), "https", "ProfileRouterURL"),
        (r"Software\Classes\ProfileRouterURL", "", "Profile Router URL"),
        (r"Software\Classes\ProfileRouterURL\DefaultIcon", "", icon),
        (
            r"Software\Classes\ProfileRouterURL\shell\open\command",
            "",
            r#""C:\Tools\profile-router.exe" "%1""#,
        ),
        (r"Software\RegisteredApplications", "ProfileRouter", caps),
    ]
    .into_iter()
    .map(|(a, b, c)| (a.to_string(), b.to_string(), c.to_string()))
    .collect();
    assert_eq!(got, want);
}

#[test]
fn unregister_removes_what_register_wrote() {
    let r = removal();
    assert_eq!(
        r.trees,
        vec![
            r"Software\Clients\StartMenuInternet\ProfileRouter".to_string(),
            r"Software\Classes\ProfileRouterURL".to_string()
        ]
    );
    assert_eq!(r.value_key, r"Software\RegisteredApplications");
    assert_eq!(r.value_name, APP_ID);
    for e in registration_entries("x.exe") {
        let in_tree = r.trees.iter().any(|t| e.key == *t || e.key.starts_with(&format!("{t}\\")));
        let is_value = e.key == r.value_key && e.name == r.value_name;
        assert!(in_tree || is_value, "{} / {} is left behind", e.key, e.name);
    }
    assert_eq!(PROGID, "ProfileRouterURL");
}
