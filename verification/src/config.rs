//! The rules file's contents: ordered rules and a fallback profile.

use vstd::prelude::*;
use vstd::string::StringExecFns;

verus! {

/// Text written as the rules file on first run. It holds no active rule and
/// sets the fallback to "Default", so it reads back as `Config::default()`.
pub const EXAMPLE: &'static str = r#"# Profile Router config.
# Clicked links are matched against the rules below, top to bottom; first match wins.
# `profile` is the Chrome profile's display name (run `profile-router --list-profiles`)
# or its folder name ("Profile 1", "Default"). Unmatched links use `default`.

# Fallback profile for links that match no rule. "Default" is always valid.
default = "Default"

# Optional: force a specific chrome.exe. Auto-detected if omitted.
# chrome_path = "C:\\Program Files\\Google\\Chrome\\Application\\chrome.exe"

# --- Rules ---------------------------------------------------------------
# domain: exact host ("github.com") or wildcard ("*.example.com" matches the
#         apex example.com and any subdomain).

# [[rule]]
# domain = "*.nwpipe.com"
# profile = "Work"

# [[rule]]
# domain = "github.com"
# profile = "Dev"
"#;

/// One routing rule: links whose host matches `domain` (and whose path
/// matches `path`, when given) open in `profile`.
#[derive(Debug, Clone)]
pub struct Rule {
    /// Exact host ("github.com") or wildcard ("*.example.com").
    pub domain: String,
    /// Optional path pattern: "/prefix/*", "/prefix*" or an exact path.
    pub path: Option<String>,
    /// Chrome profile display name or directory name.
    pub profile: String,
}

/// The rules file.
#[derive(Debug, Clone)]
pub struct Config {
    /// Fallback profile for links that match no rule.
    pub default: String,
    /// Optional explicit path to chrome.exe.
    pub chrome_path: Option<String>,
    /// Ordered rules; the first that matches wins.
    pub rules: Vec<Rule>,
}

impl Default for Config {
    /// The built-in configuration: fallback "Default", no rules, no
    /// explicit chrome.exe.
    fn default() -> (c: Self)
        ensures
            c.default@ == "Default"@,
            c.chrome_path is None,
            c.rules@.len() == 0,
    {
        Config { default: String::from_str("Default"), chrome_path: None, rules: Vec::new() }
    }
}

} // verus!
