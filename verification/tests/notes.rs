use profile_router::config::EXAMPLE;
use profile_router::notes::{profile_note_text, refresh_profile_note, user_part};

fn profiles() -> Vec<(String, String)> {
    vec![("Default".into(), "Personal".into()), ("Profile 1".into(), "Work".into())]
}

const BLOCK: &str = "# --- Chrome profiles on this machine (refreshed by --config) ---\n\
#  DIRECTORY      DISPLAY NAME\n\
#  Default        Personal\n\
#  Profile 1      Work\n\
# --- end of Chrome profiles ---\n";

#[test]
fn block_lists_profiles_as_comments() {
    assert_eq!(profile_note_text(&profiles()), BLOCK);
    assert_eq!(
        profile_note_text(&vec![]),
        "# --- Chrome profiles on this machine (refreshed by --config) ---\n\
#  DIRECTORY      DISPLAY NAME\n\
# --- end of Chrome profiles ---\n"
    );
}

#[test]
fn refresh_prepends_then_replaces() {
    let once = refresh_profile_note(EXAMPLE, &profiles());
    assert_eq!(once, format!("{BLOCK}{EXAMPLE}"));
    assert_eq!(refresh_profile_note(&once, &profiles()), once);
    let fewer = vec![("Default".to_string(), "Personal".to_string())];
    let again = refresh_profile_note(&once, &fewer);
    assert!(again.ends_with(EXAMPLE));
    assert!(!again.contains("#  Profile 1      Work"));
    assert_eq!(user_part(&again), EXAMPLE);
    assert_eq!(user_part(EXAMPLE), EXAMPLE);
}

#[test]
fn refreshed_file_is_still_the_same_toml() {
    let text = "default = \"Work\"\n[[rule]]\ndomain = \"github.com\"\nprofile = \"Dev\"\n";
    let odd = vec![("Profile\n2".to_string(), "Tab\tand\u{7}bell".to_string())];
    let refreshed = refresh_profile_note(text, &odd);
    assert!(refreshed.contains("#  Profile 2      Tab\tand bell\n"));
    let a: toml::Value = toml::from_str(text).unwrap();
    let b: toml::Value = toml::from_str(&refreshed).unwrap();
    assert_eq!(a, b);
    assert_eq!(refresh_profile_note(&refreshed, &odd), refreshed);
}

#[test]
fn unterminated_block_is_kept_as_user_text() {
    let text = "# --- Chrome profiles on this machine (refreshed by --config) ---\ndefault = \"x\"\n";
    assert_eq!(user_part(text), text);
    let r = refresh_profile_note(text, &vec![]);
    assert!(r.ends_with(text));
}
